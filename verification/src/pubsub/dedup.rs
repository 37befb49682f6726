//! Deduplication of relayed batches: deterministic keys per 500 ms window,
//! and a bounded first-in first-out memory of the keys already seen.
use vstd::prelude::*;
use vstd::string::*;
use std::collections::VecDeque;
use chrono::TimeZone;
use crate::text::{decimal_text, digit_char, three_digits};

verus! {

/// Truncating division of `a` by a positive `b` (Rust's `/` on integers).
pub open spec fn trunc_div(a: int, b: int) -> int {
    if a >= 0 {
        a / b
    } else {
        -((-a) / b)
    }
}

/// The 500 ms window start of a timestamp: `(timestamp_ms / 500) * 500`,
/// with Rust's truncating division.
pub open spec fn window_start_ms(timestamp_ms: int) -> int {
    trunc_div(timestamp_ms, 500) * 500
}

/// `n` in decimal, with leading zeros up to `width` digits.
pub open spec fn zero_padded(n: nat, width: nat) -> Seq<char>
    decreases width,
{
    if width == 0 || decimal_text(n).len() >= width {
        decimal_text(n)
    } else {
        seq!['0'] + zero_padded(n, (width - 1) as nat)
    }
}

/// `n < 100` in two digits.
pub open spec fn two_digits(n: int) -> Seq<char> {
    seq![digit_char((n / 10) as nat), digit_char((n % 10) as nat)]
}

/// The year as `%Y` writes it: four digits for years 0 to 9999, otherwise
/// a sign and at least four digits.
pub open spec fn year_text(y: int) -> Seq<char> {
    if 0 <= y <= 9999 {
        zero_padded(y as nat, 4)
    } else if y > 9999 {
        seq!['+'] + zero_padded(y as nat, 4)
    } else {
        seq!['-'] + zero_padded((-y) as nat, 4)
    }
}

/// The proleptic Gregorian (year, month, day) of the day `days` after
/// 1970-01-01.
pub open spec fn civil_from_days(days: int) -> (int, int, int) {
    let z = days + 719468;
    let era = z / 146097;
    let doe = z - era * 146097;
    let yoe = (doe - doe / 1460 + doe / 36524 - doe / 146096) / 365;
    let y = yoe + era * 400;
    let doy = doe - (365 * yoe + yoe / 4 - yoe / 100);
    let mp = (5 * doy + 2) / 153;
    let d = doy - (153 * mp + 2) / 5 + 1;
    let m = if mp < 10 { mp + 3 } else { mp - 9 };
    (if m <= 2 { y + 1 } else { y }, m, d)
}

/// The text `chrono` writes for the UTC instant `ms` milliseconds after the
/// Unix epoch in the format `%Y-%m-%dT%H:%M:%S%.3fZ`.
pub open spec fn iso8601_millis(ms: int) -> Seq<char> {
    let days = ms / 86_400_000;
    let rem = ms % 86_400_000;
    let (y, m, d) = civil_from_days(days);
    year_text(y) + seq!['-'] + two_digits(m) + seq!['-'] + two_digits(d) + seq!['T']
        + two_digits(rem / 3_600_000) + seq![':'] + two_digits(rem % 3_600_000 / 60_000) + seq![':']
        + two_digits(rem % 60_000 / 1000) + seq!['.'] + three_digits((rem % 1000) as nat) + seq!['Z']
}

/// The milliseconds for which `chrono` has a `DateTime<Utc>`: from
/// -262143-01-01T00:00:00 to 262142-12-31T23:59:59.999.
pub open spec fn utc_millis_in_range(ms: int) -> bool {
    -8_334_601_228_800_000 <= ms <= 8_210_266_876_799_999
}

/// `Utc.timestamp_millis_opt(ms).unwrap()` formatted with
/// `%Y-%m-%dT%H:%M:%S%.3fZ`: the proleptic Gregorian calendar date and the
/// time of day in UTC. The `unwrap` panics outside chrono's range, hence
/// the `requires`.
#[verifier::external_body]
fn utc_millis_text(ms: i64) -> (r: String)
    requires
        utc_millis_in_range(ms as int),
    ensures
        r@ == iso8601_millis(ms as int),
{
    chrono::Utc.timestamp_millis_opt(ms).unwrap().format("%Y-%m-%dT%H:%M:%S%.3fZ").to_string()
}

/// `DateTime::from_timestamp_millis(ms)` formatted with
/// `%Y-%m-%dT%H:%M:%S%.3fZ`; `None` outside chrono's range.
#[verifier::external_body]
pub(crate) fn utc_millis_text_opt(ms: i64) -> (r: Option<String>)
    ensures
        r is Some <==> utc_millis_in_range(ms as int),
        r matches Some(t) ==> t@ == iso8601_millis(ms as int),
{
    match chrono::DateTime::from_timestamp_millis(ms) {
        Some(dt) => Some(dt.format("%Y-%m-%dT%H:%M:%S%.3fZ").to_string()),
        None => None,
    }
}

/// The deduplication key of a batch: `{station}:{window start in ISO 8601}`.
pub open spec fn dedup_key_of(station: Seq<char>, timestamp_ms: int) -> Seq<char> {
    station + seq![':'] + iso8601_millis(window_start_ms(timestamp_ms))
}

/// Generate a deterministic deduplication key from station and timestamp.
/// Floors timestamp to 500ms boundary and formats as `{station}:{iso8601}`.
pub fn generate_dedup_key(station: &str, timestamp_ms: i64) -> (r: String)
    requires
        utc_millis_in_range(window_start_ms(timestamp_ms as int)),
    ensures
        r@ == dedup_key_of(station@, timestamp_ms as int),
{
    let q = timestamp_ms / 500;
    assert(q as int == trunc_div(timestamp_ms as int, 500));
    let floored_ms = q * 500;
    let mut key = String::from_str(station);
    proof { reveal_strlit(":"); }
    key.append(":");
    key.append(utc_millis_text(floored_ms).as_str());
    key
}

/// Timestamps in one 500 ms window get the same key.
pub proof fn lemma_same_window_same_key(station: Seq<char>, t1: int, t2: int)
    requires
        window_start_ms(t1) == window_start_ms(t2),
    ensures
        dedup_key_of(station, t1) == dedup_key_of(station, t2),
{
}

/// The keys that a [`DedupChecker`] remembers, oldest first, and its capacity.
pub struct DedupView {
    pub window: Seq<Seq<char>>,
    pub max_entries: nat,
}

/// What checking `key` does to the remembered keys: nothing when it is
/// already there; otherwise it is appended, and when the memory is full the
/// oldest key is forgotten first.
pub open spec fn dedup_insert(window: Seq<Seq<char>>, max_entries: nat, key: Seq<char>) -> Seq<Seq<char>> {
    if window.contains(key) {
        window
    } else if window.len() >= max_entries && window.len() > 0 {
        window.drop_first().push(key)
    } else {
        window.push(key)
    }
}

/// Whether no key occurs twice.
pub open spec fn distinct_keys(window: Seq<Seq<char>>) -> bool {
    forall|i: int, j: int| 0 <= i < j < window.len() ==> window[i] != window[j]
}

/// LRU-style deduplication checker: a first-in first-out memory of keys.
pub struct DedupChecker {
    order: VecDeque<String>,
    max_entries: usize,
}

impl View for DedupChecker {
    type V = DedupView;

    closed spec fn view(&self) -> DedupView {
        DedupView { window: self.order@.map_values(|s: String| s@), max_entries: self.max_entries as nat }
    }
}

impl DedupChecker {
    /// The memory holds no key twice, and no more keys than its capacity
    /// (or one key, with a capacity of zero).
    #[verifier::type_invariant]
    spec fn well_formed(self) -> bool {
        &&& distinct_keys(self@.window)
        &&& (self@.window.len() <= self.max_entries || self@.window.len() <= 1)
    }

    /// An empty memory for `max_entries` keys.
    pub fn new(max_entries: usize) -> (r: Self)
        ensures
            r@.window == Seq::<Seq<char>>::empty(),
            r@.max_entries == max_entries,
    {
        let r = DedupChecker { order: VecDeque::new(), max_entries };
        assert(r@.window =~= Seq::<Seq<char>>::empty());
        r
    }

    /// Returns `true` if the key is new (not seen before).
    /// Returns `false` if it's a duplicate.
    pub fn check_and_insert(&mut self, key: &str) -> (r: bool)
        ensures
            r == !old(self)@.window.contains(key@),
            final(self)@.window == dedup_insert(old(self)@.window, old(self)@.max_entries, key@),
            final(self)@.max_entries == old(self)@.max_entries,
    {
        proof { use_type_invariant(&*self); }
        let ghost w = self@.window;
        let n = self.order.len();
        let mut i: usize = 0;
        while i < n
            invariant
                n == self.order@.len(),
                i <= n,
                w == self@.window,
                forall|j: int| 0 <= j < i ==> w[j] != key@,
            decreases n - i,
        {
            if same_str(&self.order[i], key) {
                assert(w[i as int] == key@);
                return false;
            }
            i = i + 1;
        }
        assert(!w.contains(key@));
        let mut order: VecDeque<String> = VecDeque::new();
        std::mem::swap(&mut order, &mut self.order);
        let ghost before = order@;
        if order.len() >= self.max_entries {
            let _ = order.pop_front();
        }
        order.push_back(String::from_str(key));
        proof {
            let nw = order@.map_values(|s: String| s@);
            if before.len() >= self.max_entries && before.len() > 0 {
                assert(nw =~= w.drop_first().push(key@));
            } else {
                assert(nw =~= w.push(key@));
            }
            assert forall|a: int, b: int| 0 <= a < b < nw.len() implies nw[a] != nw[b] by {
                if b == nw.len() - 1 {
                    assert(nw[b] == key@);
                    if before.len() >= self.max_entries && before.len() > 0 {
                        assert(nw[a] == w[a + 1]);
                    } else {
                        assert(nw[a] == w[a]);
                    }
                } else if before.len() >= self.max_entries && before.len() > 0 {
                    assert(nw[a] == w[a + 1] && nw[b] == w[b + 1]);
                } else {
                    assert(nw[a] == w[a] && nw[b] == w[b]);
                }
            }
        }
        self.order = order;
        true
    }

    /// How many keys are remembered.
    pub fn len(&self) -> (r: usize)
        ensures
            r == self@.window.len(),
    {
        self.order.len()
    }

    /// Whether no key is remembered.
    pub fn is_empty(&self) -> (r: bool)
        ensures
            r == (self@.window.len() == 0),
    {
        self.order.len() == 0
    }
}

/// Whether a remembered key has the same characters as `key`.
fn same_str(a: &String, key: &str) -> (r: bool)
    ensures
        r == (a@ == key@),
{
    let b = String::from_str(key);
    *a == b
}

/// A key that has just been checked is remembered.
pub proof fn lemma_checked_key_is_remembered(window: Seq<Seq<char>>, max_entries: nat, key: Seq<char>)
    ensures
        dedup_insert(window, max_entries, key).contains(key),
{
    let w2 = dedup_insert(window, max_entries, key);
    if !window.contains(key) {
        assert(w2[w2.len() - 1] == key);
    }
}

/// Checking a key never lets the memory grow past its capacity (or past a
/// single key, with a capacity of zero).
pub proof fn lemma_memory_bounded(window: Seq<Seq<char>>, max_entries: nat, key: Seq<char>)
    requires
        window.len() <= max_entries || window.len() <= 1,
    ensures
        dedup_insert(window, max_entries, key).len() <= max_entries
            || dedup_insert(window, max_entries, key).len() <= 1,
{
}

/// A key checked twice in a row is new at most once: the second check sees it.
pub proof fn lemma_repeat_is_duplicate(window: Seq<Seq<char>>, max_entries: nat, key: Seq<char>)
    ensures
        dedup_insert(window, max_entries, key).contains(key),
        dedup_insert(dedup_insert(window, max_entries, key), max_entries, key)
            == dedup_insert(window, max_entries, key),
{
    lemma_checked_key_is_remembered(window, max_entries, key);
}

/// The remembered keys after checking `keys` in turn.
pub open spec fn dedup_all(window: Seq<Seq<char>>, max_entries: nat, keys: Seq<Seq<char>>) -> Seq<Seq<char>>
    decreases keys.len(),
{
    if keys.len() == 0 {
        window
    } else {
        dedup_insert(dedup_all(window, max_entries, keys.drop_last()), max_entries, keys.last())
    }
}

/// How many of `keys`, checked in turn, were new when checked.
pub open spec fn new_key_count(window: Seq<Seq<char>>, max_entries: nat, keys: Seq<Seq<char>>) -> nat
    decreases keys.len(),
{
    if keys.len() == 0 {
        0
    } else {
        new_key_count(window, max_entries, keys.drop_last()) + if dedup_all(
            window,
            max_entries,
            keys.drop_last(),
        ).contains(keys.last()) {
            0nat
        } else {
            1nat
        }
    }
}

/// Starting empty, with a capacity of at least one, the memory holds as
/// many keys as were new when checked, up to its capacity: a duplicate
/// leaves the count unchanged.
pub proof fn lemma_len_is_new_keys_up_to_capacity(max_entries: nat, keys: Seq<Seq<char>>)
    requires
        max_entries >= 1,
    ensures
        dedup_all(Seq::empty(), max_entries, keys).len() == if new_key_count(
            Seq::empty(),
            max_entries,
            keys,
        ) < max_entries {
            new_key_count(Seq::empty(), max_entries, keys)
        } else {
            max_entries
        },
    decreases keys.len(),
{
    if keys.len() > 0 {
        lemma_len_is_new_keys_up_to_capacity(max_entries, keys.drop_last());
    }
}

} // verus!
