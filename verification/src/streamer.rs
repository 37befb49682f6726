//! The playback order of a MiniSEED file's records: by start time, records
//! that start together in file order.
use vstd::prelude::*;
use vstd::slice::slice_subrange;
use crate::parser::header::{SeedHeader, btime_micros};
use crate::parser::mseed::{header_ok, record_at, mseed_decodable_safely};

verus! {

/// Where a record starts in the file, and when its data starts.
#[derive(Debug, Clone, Copy)]
pub struct RecordIndexEntry {
    /// Start time in microseconds since 1970-01-01T00:00:00 UTC.
    pub start_time: i64,
    /// Byte offset of the 512-byte record in the file.
    pub file_offset: u64,
}

/// An entry as a pair of integers: start time, then file offset.
pub open spec fn entry_key(e: RecordIndexEntry) -> (int, int) {
    (e.start_time as int, e.file_offset as int)
}

/// The keys of a list of entries.
pub open spec fn entry_keys(v: Seq<RecordIndexEntry>) -> Seq<(int, int)> {
    v.map_values(|e: RecordIndexEntry| entry_key(e))
}

/// The order of playback: earlier start first, and at equal starts the
/// record that comes first in the file.
pub open spec fn plays_before(a: (int, int), b: (int, int)) -> bool {
    a.0 < b.0 || (a.0 == b.0 && a.1 < b.1)
}

/// The entries of the first `k` records in file order, one for each record
/// whose header parses.
pub open spec fn file_order_index(data: Seq<u8>, k: nat) -> Seq<(int, int)>
    decreases k,
{
    if k == 0 {
        Seq::empty()
    } else {
        let prev = file_order_index(data, (k - 1) as nat);
        if header_ok(record_at(data, k - 1)) {
            prev.push((btime_micros(record_at(data, k - 1)), 512 * (k - 1)))
        } else {
            prev
        }
    }
}

/// The entries of all whole records of `data`.
pub open spec fn record_index(data: Seq<u8>) -> Seq<(int, int)> {
    file_order_index(data, (data.len() / 512) as nat)
}

/// Whether the keys are in playback order, each strictly before the next.
pub open spec fn in_playback_order(keys: Seq<(int, int)>) -> bool {
    forall|i: int, j: int| 0 <= i < j < keys.len() ==> plays_before(keys[i], keys[j])
}

/// Index of the records of `data` for playback: one entry per whole record
/// whose header parses, sorted by start time, records with equal start
/// times kept in file order (a stable sort).
pub fn index_records(data: &[u8]) -> (r: Vec<RecordIndexEntry>)
    requires
        mseed_decodable_safely(data@),
    ensures
        in_playback_order(entry_keys(r@)),
        forall|e: (int, int)| entry_keys(r@).contains(e) <==> record_index(data@).contains(e),
{
    let len = data.len();
    let mut index: Vec<RecordIndexEntry> = Vec::new();
    let mut offset: usize = 0;
    let ghost mut k: nat = 0;
    while 512 <= len - offset
        invariant
            len == data@.len(),
            offset == 512 * k,
            offset <= len,
            k <= len / 512,
            mseed_decodable_safely(data@),
            in_playback_order(entry_keys(index@)),
            forall|e: (int, int)| entry_keys(index@).contains(e) <==> file_order_index(data@, k).contains(e),
            forall|i: int| 0 <= i < index@.len() ==> 0 <= #[trigger] index@[i].file_offset < offset,
        decreases len - offset,
    {
        let record = slice_subrange(data, offset, offset + 512);
        assert(record@ == record_at(data@, k as int));
        assert(k < len / 512) by (nonlinear_arith)
            requires
                offset == 512 * k,
                offset + 512 <= len,
        ;
        let ghost before = entry_keys(index@);
        match SeedHeader::parse(record) {
            Ok(header) => {
                let entry = RecordIndexEntry { start_time: header.start_time, file_offset: offset as u64 };
                let ghost x = entry_key(entry);
                let n = index.len();
                let mut p: usize = 0;
                while p < n && !(header.start_time < index[p].start_time)
                    invariant
                        n == index@.len(),
                        p <= n,
                        entry_keys(index@) == before,
                        in_playback_order(before),
                        x == (header.start_time as int, offset as int),
                        forall|i: int| 0 <= i < n ==> 0 <= #[trigger] index@[i].file_offset < offset,
                        forall|i: int| 0 <= i < p ==> plays_before(#[trigger] before[i], x),
                    decreases n - p,
                {
                    assert(before[p as int] == entry_key(index@[p as int]));
                    p = p + 1;
                }
                proof {
                    if p < n {
                        assert(before[p as int] == entry_key(index@[p as int]));
                        assert(plays_before(x, before[p as int]));
                    }
                }
                index.insert(p, entry);
                proof {
                    let after = entry_keys(index@);
                    assert(after =~= before.insert(p as int, x));
                    assert forall|i: int, j: int| 0 <= i < j < after.len() implies plays_before(
                        after[i],
                        after[j],
                    ) by {
                        if j < p {
                            assert(after[i] == before[i] && after[j] == before[j]);
                        } else if j == p {
                            assert(after[i] == before[i] && after[j] == x);
                        } else if i < p {
                            assert(after[i] == before[i] && after[j] == before[j - 1]);
                        } else if i == p {
                            assert(after[i] == x && after[j] == before[j - 1]);
                            assert(plays_before(x, before[p as int]));
                            if j - 1 > p {
                                assert(plays_before(before[p as int], before[j - 1]));
                            }
                        } else {
                            assert(after[i] == before[i - 1] && after[j] == before[j - 1]);
                        }
                    }
                    assert(file_order_index(data@, k + 1) == file_order_index(data@, k).push(x));
                    let fo = file_order_index(data@, k);
                    assert forall|e: (int, int)| after.contains(e) implies fo.push(x).contains(e) by {
                        let i = choose|i: int| 0 <= i < after.len() && after[i] == e;
                        if i < p {
                            assert(before[i] == e);
                            assert(before.contains(e));
                        } else if i > p {
                            assert(before[i - 1] == e);
                            assert(before.contains(e));
                        } else {
                            assert(fo.push(x)[fo.len() as int] == e);
                        }
                        if before.contains(e) {
                            assert(fo.contains(e));
                            let m = choose|m: int| 0 <= m < fo.len() && fo[m] == e;
                            assert(fo.push(x)[m] == e);
                        }
                    }
                    assert forall|e: (int, int)| fo.push(x).contains(e) implies after.contains(e) by {
                        let i = choose|i: int| 0 <= i < fo.push(x).len() && fo.push(x)[i] == e;
                        if i == fo.len() {
                            assert(after[p as int] == e);
                        } else {
                            assert(fo[i] == e);
                            assert(fo.contains(e));
                            assert(before.contains(e));
                            let m = choose|m: int| 0 <= m < before.len() && before[m] == e;
                            if m < p {
                                assert(after[m] == e);
                            } else {
                                assert(after[m + 1] == e);
                            }
                        }
                    }
                }
            },
            Err(_) => {
                assert(file_order_index(data@, k + 1) == file_order_index(data@, k));
            },
        }
        offset = offset + 512;
        proof { k = k + 1; }
    }
    assert(k == len / 512) by (nonlinear_arith)
        requires
            offset == 512 * k,
            offset <= len,
            offset + 512 > len,
    ;
    index
}

} // verus!
