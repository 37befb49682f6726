//! Choosing a Hue bridge among the services that mDNS resolves.
use vstd::prelude::*;
use vstd::string::*;
use crate::text::{chars_of, char_range, to_lower, lowercased};

verus! {

/// Bridge discovery over mDNS (`_hue._tcp.local.`).
#[derive(Debug, Clone, Copy)]
pub struct Discovery;

/// The prefix that some bridges put before their ID in the `bridgeid` property.
pub open spec fn id_prefix() -> Seq<char> {
    seq!['b', 'r', 'i', 'd', 'g', 'e', 'i', 'd', '=']
}

/// `s` with every occurrence of `p` removed, scanning left to right
/// (`str::replace(p, "")`).
pub open spec fn remove_all(s: Seq<char>, p: Seq<char>) -> Seq<char>
    decreases s.len(),
{
    if p.len() == 0 || s.len() < p.len() {
        s
    } else if s.take(p.len() as int) == p {
        remove_all(s.skip(p.len() as int), p)
    } else {
        seq![s[0]] + remove_all(s.drop_first(), p)
    }
}

/// The code point of `c` with ASCII letters mapped to lower case, other
/// characters unchanged.
pub open spec fn ascii_lower(c: char) -> u32 {
    if 'A' <= c <= 'Z' {
        ((c as u32) + 32) as u32
    } else {
        c as u32
    }
}

/// Equality up to the case of ASCII letters (`str::eq_ignore_ascii_case`).
pub open spec fn eq_ignore_ascii_case(a: Seq<char>, b: Seq<char>) -> bool {
    a.len() == b.len() && forall|i: int| 0 <= i < a.len() ==> ascii_lower(#[trigger] a[i]) == ascii_lower(b[i])
}

/// The ID that a resolved bridge is known by: its `bridgeid` property
/// without the `bridgeid=` prefix (every occurrence is removed when the
/// property starts with it), in lower case.
pub open spec fn clean_bridge_id(raw: Seq<char>) -> Seq<char> {
    let id = if raw.len() >= id_prefix().len() && raw.take(id_prefix().len() as int) == id_prefix() {
        remove_all(raw, id_prefix())
    } else {
        raw
    };
    lowercased(id)
}

fn remove_all_exec(s: &str, p: &Vec<char>) -> (r: String)
    requires
        p@.len() > 0,
    ensures
        r@ == remove_all(s@, p@),
{
    let cs = chars_of(s);
    let n = cs.len();
    let pl = p.len();
    let mut out = String::new();
    let mut start: usize = 0;
    let mut i: usize = 0;
    assert(s@.subrange(0, 0) =~= Seq::<char>::empty());
    assert(s@.skip(0) =~= s@);
    assert(out@ =~= Seq::<char>::empty());
    while i < n
        invariant
            n == s@.len(),
            cs@ == s@,
            pl == p@.len(),
            pl > 0,
            start <= i <= n,
            out@ + s@.subrange(start as int, i as int) + remove_all(s@.skip(i as int), p@) == remove_all(s@, p@),
        decreases n - i,
    {
        let ghost rest = s@.skip(i as int);
        if n - i >= pl && prefix_at(&cs, p, i) {
            assert(rest.take(pl as int) =~= s@.subrange(i as int, i + pl));
            assert(rest.skip(pl as int) =~= s@.skip(i + pl));
            out.append(char_range(s, start, i).as_str());
            i = i + pl;
            start = i;
            assert(s@.subrange(start as int, i as int) =~= Seq::<char>::empty());
            assert(out@ + s@.subrange(start as int, i as int) =~= out@);
        } else {
            assert(n - i < pl ==> rest.len() < pl);
            assert(n - i >= pl ==> rest.take(pl as int) =~= s@.subrange(i as int, i + pl));
            assert(rest.drop_first() =~= s@.skip(i + 1));
            assert(rest[0] == s@[i as int]);
            assert(s@.subrange(start as int, i + 1) =~= s@.subrange(start as int, i as int) + seq![s@[i as int]]);
            i = i + 1;
        }
    }
    out.append(char_range(s, start, n).as_str());
    assert(s@.skip(n as int) =~= Seq::<char>::empty());
    assert(out@ =~= remove_all(s@, p@));
    out
}

/// Whether `p` occurs in `s` at index `i`.
fn prefix_at(s: &Vec<char>, p: &Vec<char>, i: usize) -> (r: bool)
    requires
        i + p@.len() <= s@.len(),
    ensures
        r == (s@.subrange(i as int, i + p@.len()) == p@),
{
    let sl = s.len();
    let plen = p.len();
    let mut k: usize = 0;
    while k < plen
        invariant
            sl == s@.len(),
            plen == p@.len(),
            i + p@.len() <= s@.len(),
            k <= p@.len(),
            forall|m: int| 0 <= m < k ==> s@[i + m] == p@[m],
        decreases p@.len() - k,
    {
        if s[i + k] != p[k] {
            assert(s@.subrange(i as int, i + p@.len())[k as int] != p@[k as int]);
            return false;
        }
        k = k + 1;
    }
    assert(s@.subrange(i as int, i + p@.len()) =~= p@);
    true
}

fn ascii_lower_exec(c: char) -> (r: u32)
    ensures
        r == ascii_lower(c),
{
    if 'A' <= c && c <= 'Z' {
        (c as u32) + 32
    } else {
        c as u32
    }
}

fn eq_ignore_case_exec(a: &str, b: &str) -> (r: bool)
    ensures
        r == eq_ignore_ascii_case(a@, b@),
{
    let x = chars_of(a);
    let y = chars_of(b);
    if x.len() != y.len() {
        return false;
    }
    let mut i: usize = 0;
    while i < x.len()
        invariant
            x@ == a@,
            y@ == b@,
            x@.len() == y@.len(),
            i <= x@.len(),
            forall|k: int| 0 <= k < i ==> ascii_lower(#[trigger] a@[k]) == ascii_lower(b@[k]),
        decreases x@.len() - i,
    {
        if ascii_lower_exec(x[i]) != ascii_lower_exec(y[i]) {
            return false;
        }
        i = i + 1;
    }
    true
}

impl Discovery {
    /// Decides on one resolved bridge: its cleaned ID, unless a target ID is
    /// configured and differs from it (ignoring ASCII case).
    pub fn accept_bridge(raw_id: &str, target_id: Option<&str>) -> (r: Option<String>)
        ensures
            r is Some <==> (target_id matches Some(t) ==> eq_ignore_ascii_case(clean_bridge_id(raw_id@), t@)),
            r matches Some(id) ==> id@ == clean_bridge_id(raw_id@),
    {
        let mut prefix: Vec<char> = Vec::new();
        prefix.push('b');
        prefix.push('r');
        prefix.push('i');
        prefix.push('d');
        prefix.push('g');
        prefix.push('e');
        prefix.push('i');
        prefix.push('d');
        prefix.push('=');
        assert(prefix@ =~= id_prefix());
        let cs = chars_of(raw_id);
        let starts = cs.len() >= prefix.len() && prefix_at(&cs, &prefix, 0);
        proof {
            if cs@.len() >= prefix@.len() {
                assert(raw_id@.take(9) =~= cs@.subrange(0, 9));
            }
        }
        let id = if starts { remove_all_exec(raw_id, &prefix) } else { String::from_str(raw_id) };
        let clean_id = to_lower(id.as_str());
        match target_id {
            Some(t) => {
                if !eq_ignore_case_exec(clean_id.as_str(), t) {
                    return None;
                }
            },
            None => {},
        }
        Some(clean_id)
    }
}

} // verus!
