//! Character-level text helpers shared by the parsers and the configuration
//! code: substring search, suffix tests, decimal rendering, and the std text
//! operations (trimming, case mapping, lossy UTF-8 decoding) that the library
//! relies on.
use vstd::prelude::*;
use vstd::string::*;

verus! {

/// Whether `c` has the Unicode `White_Space` property (`char::is_whitespace`).
pub open spec fn is_white_space(c: char) -> bool {
    let u = c as u32;
    (0x9 <= u <= 0xD) || u == 0x20 || u == 0x85 || u == 0xA0 || u == 0x1680 || (0x2000 <= u
        <= 0x200A) || u == 0x2028 || u == 0x2029 || u == 0x202F || u == 0x205F || u == 0x3000
}

/// `s` without its leading white space.
pub open spec fn trim_start_ws(s: Seq<char>) -> Seq<char>
    decreases s.len(),
{
    if s.len() > 0 && is_white_space(s[0]) {
        trim_start_ws(s.drop_first())
    } else {
        s
    }
}

/// `s` without its trailing white space.
pub open spec fn trim_end_ws(s: Seq<char>) -> Seq<char>
    decreases s.len(),
{
    if s.len() > 0 && is_white_space(s.last()) {
        trim_end_ws(s.drop_last())
    } else {
        s
    }
}

/// The string without its leading and trailing white space (`str::trim`).
pub open spec fn trimmed(s: Seq<char>) -> Seq<char> {
    trim_end_ws(trim_start_ws(s))
}

/// The result of `str::to_uppercase` on a string with the given characters.
pub uninterp spec fn uppercased(s: Seq<char>) -> Seq<char>;

/// The result of `str::to_lowercase` on a string with the given characters.
pub uninterp spec fn lowercased(s: Seq<char>) -> Seq<char>;

/// Whether `c` has the Unicode `White_Space` property.
fn white_space(c: char) -> (r: bool)
    ensures
        r == is_white_space(c),
{
    let u = c as u32;
    (0x9 <= u && u <= 0xD) || u == 0x20 || u == 0x85 || u == 0xA0 || u == 0x1680 || (0x2000 <= u
        && u <= 0x200A) || u == 0x2028 || u == 0x2029 || u == 0x202F || u == 0x205F || u == 0x3000
}

/// Dropping the leading white space of `s`, whose first `i` characters are
/// white space and whose next one (if any) is not, leaves `s` from `i` on.
proof fn lemma_trim_start_at(s: Seq<char>, i: int)
    requires
        0 <= i <= s.len(),
        forall|k: int| 0 <= k < i ==> is_white_space(#[trigger] s[k]),
        i < s.len() ==> !is_white_space(s[i]),
    ensures
        trim_start_ws(s) == s.subrange(i, s.len() as int),
    decreases i,
{
    if i == 0 {
        assert(s.subrange(0, s.len() as int) =~= s);
    } else {
        let t = s.drop_first();
        assert forall|k: int| 0 <= k < i - 1 implies is_white_space(#[trigger] t[k]) by {
            assert(t[k] == s[k + 1]);
        }
        assert(is_white_space(s[0]));
        lemma_trim_start_at(t, i - 1);
        assert(t.subrange(i - 1, t.len() as int) =~= s.subrange(i, s.len() as int));
    }
}

/// Dropping the trailing white space of `s`, whose characters from `j` on
/// are white space and whose one before (if any) is not, leaves `s` up to `j`.
proof fn lemma_trim_end_at(s: Seq<char>, j: int)
    requires
        0 <= j <= s.len(),
        forall|k: int| j <= k < s.len() ==> is_white_space(#[trigger] s[k]),
        j > 0 ==> !is_white_space(s[j - 1]),
    ensures
        trim_end_ws(s) == s.subrange(0, j),
    decreases s.len() - j,
{
    if j == s.len() {
        assert(s.subrange(0, j) =~= s);
    } else {
        let t = s.drop_last();
        assert(is_white_space(s.last()));
        assert forall|k: int| j <= k < t.len() implies is_white_space(#[trigger] t[k]) by {
            assert(t[k] == s[k]);
        }
        lemma_trim_end_at(t, j);
        assert(t.subrange(0, j) =~= s.subrange(0, j));
    }
}

/// The string without its leading and trailing white space, white space
/// being the characters with the Unicode `White_Space` property (as
/// `str::trim` does).
pub(crate) fn trim_text(s: &str) -> (r: String)
    ensures
        r@ == trimmed(s@),
{
    let cs = chars_of(s);
    let n = cs.len();
    let mut i: usize = 0;
    while i < n && white_space(cs[i])
        invariant
            cs@ == s@,
            n == s@.len(),
            i <= n,
            forall|k: int| 0 <= k < i ==> is_white_space(#[trigger] s@[k]),
        decreases n - i,
    {
        i = i + 1;
    }
    let mut j: usize = n;
    while j > i && white_space(cs[j - 1])
        invariant
            cs@ == s@,
            n == s@.len(),
            i <= j <= n,
            forall|k: int| j <= k < n ==> is_white_space(#[trigger] s@[k]),
        decreases j,
    {
        j = j - 1;
    }
    proof {
        lemma_trim_start_at(s@, i as int);
        let t = s@.subrange(i as int, n as int);
        assert forall|k: int| j - i <= k < t.len() implies is_white_space(#[trigger] t[k]) by {
            assert(t[k] == s@[k + i]);
        }
        if j > i {
            assert(t[j - i - 1] == s@[j - 1]);
        }
        lemma_trim_end_at(t, j - i);
        assert(t.subrange(0, j - i) =~= s@.subrange(i as int, j as int));
    }
    char_range(s, i, j)
}

/// `str::to_uppercase`: the Unicode upper-case mapping of the string.
#[verifier::external_body]
pub(crate) fn to_upper(s: &str) -> (r: String)
    ensures
        r@ == uppercased(s@),
{
    s.to_uppercase()
}

/// `str::to_lowercase`: the Unicode lower-case mapping of the string.
#[verifier::external_body]
pub(crate) fn to_lower(s: &str) -> (r: String)
    ensures
        r@ == lowercased(s@),
{
    s.to_lowercase()
}

/// The characters of a string, one by one.
pub fn chars_of(s: &str) -> (v: Vec<char>)
    ensures
        v@ == s@,
{
    let n = s.unicode_len();
    let mut v: Vec<char> = Vec::new();
    let mut i: usize = 0;
    while i < n
        invariant
            n == s@.len(),
            i <= n,
            v@ == s@.take(i as int),
        decreases n - i,
    {
        let c = s.get_char(i);
        v.push(c);
        assert(v@ =~= s@.take(i + 1));
        i = i + 1;
    }
    assert(v@ =~= s@);
    v
}

/// The characters `from .. to` of a string, as a new `String`.
pub fn char_range(s: &str, from: usize, to: usize) -> (r: String)
    requires
        from <= to <= s@.len(),
    ensures
        r@ == s@.subrange(from as int, to as int),
{
    s.substring_char(from, to).to_owned()
}

/// Whether `p` occurs in `h` at index `i`.
pub open spec fn occurs_at(h: Seq<char>, p: Seq<char>, i: int) -> bool {
    0 <= i && i + p.len() <= h.len() && h.subrange(i, i + p.len()) == p
}

/// The first index, not before `from`, at which `p` occurs in `h`.
pub open spec fn find_from(h: Seq<char>, p: Seq<char>, from: int) -> Option<int>
    decreases h.len() + 1 - from,
{
    if from < 0 || from + p.len() > h.len() {
        None
    } else if h.subrange(from, from + p.len()) == p {
        Some(from)
    } else {
        find_from(h, p, from + 1)
    }
}

/// What `find_from` finds is an occurrence, and the first one.
pub proof fn lemma_find_from(h: Seq<char>, p: Seq<char>, from: int)
    requires
        0 <= from,
    ensures
        find_from(h, p, from) matches Some(i) ==> from <= i && occurs_at(h, p, i)
            && forall|j: int| from <= j < i ==> !occurs_at(h, p, j),
        find_from(h, p, from) is None ==> forall|j: int| from <= j ==> !occurs_at(h, p, j),
    decreases h.len() + 1 - from,
{
    if from + p.len() <= h.len() && h.subrange(from, from + p.len()) != p {
        lemma_find_from(h, p, from + 1);
    }
}

/// An occurrence with none before it, from `from` on, is what `find_from`
/// finds.
pub proof fn lemma_find_first(h: Seq<char>, p: Seq<char>, from: int, t: int)
    requires
        0 <= from <= t,
        occurs_at(h, p, t),
        forall|j: int| from <= j < t ==> !#[trigger] occurs_at(h, p, j),
    ensures
        find_from(h, p, from) == Some(t),
    decreases t - from,
{
    if from < t {
        assert(!occurs_at(h, p, from));
        lemma_find_first(h, p, from + 1, t);
    }
}

/// Whether the characters `h[i .. i + p.len()]` are those of `p`.
fn matches_at(h: &Vec<char>, p: &Vec<char>, i: usize) -> (r: bool)
    requires
        i + p@.len() <= h@.len(),
    ensures
        r == (h@.subrange(i as int, i + p@.len()) == p@),
{
    let hl = h.len();
    let pl = p.len();
    let mut k: usize = 0;
    while k < pl
        invariant
            hl == h@.len(),
            pl == p@.len(),
            i + p@.len() <= h@.len(),
            k <= p@.len(),
            forall|m: int| 0 <= m < k ==> h@[i + m] == p@[m],
        decreases p@.len() - k,
    {
        if h[i + k] != p[k] {
            assert(h@.subrange(i as int, i + p@.len())[k as int] != p@[k as int]);
            return false;
        }
        k = k + 1;
    }
    assert(h@.subrange(i as int, i + p@.len()) =~= p@);
    true
}

/// The first index, not before `from`, at which `p` occurs in `h`.
pub fn find_chars(h: &Vec<char>, p: &Vec<char>, from: usize) -> (r: Option<usize>)
    ensures
        r matches Some(i) ==> find_from(h@, p@, from as int) == Some(i as int),
        r is None ==> find_from(h@, p@, from as int) is None,
{
    let hl = h.len();
    let pl = p.len();
    if pl > hl {
        proof { lemma_find_from_none_when_long(h@, p@, from as int); }
        return None;
    }
    let last = hl - pl;
    let mut i = from;
    while i <= last
        invariant
            from <= i,
            hl == h@.len(),
            pl == p@.len(),
            pl <= hl,
            last == hl - pl,
            find_from(h@, p@, from as int) == find_from(h@, p@, i as int),
        decreases hl + 1 - i,
    {
        if matches_at(h, p, i) {
            return Some(i);
        }
        if i == last {
            return None;
        }
        i = i + 1;
    }
    None
}

proof fn lemma_find_from_none_when_long(h: Seq<char>, p: Seq<char>, from: int)
    requires
        p.len() > h.len(),
    ensures
        find_from(h, p, from) is None,
{
}

/// Whether `suffix` ends `s`.
pub open spec fn is_suffix(suffix: Seq<char>, s: Seq<char>) -> bool {
    suffix.len() <= s.len() && s.subrange(s.len() - suffix.len(), s.len() as int) == suffix
}

/// Whether `p` occurs somewhere in `h` (`str::contains`).
pub open spec fn contains_text(h: Seq<char>, p: Seq<char>) -> bool {
    exists|i: int| occurs_at(h, p, i)
}

/// Whether the string `h` contains `p`.
pub fn contains_str(h: &str, p: &str) -> (r: bool)
    ensures
        r == contains_text(h@, p@),
{
    let hv = chars_of(h);
    let pv = chars_of(p);
    let found = find_chars(&hv, &pv, 0);
    proof {
        lemma_find_from(h@, p@, 0);
        if let Some(i) = found {
            assert(occurs_at(h@, p@, i as int));
        } else {
            assert forall|i: int| !occurs_at(h@, p@, i) by {
                if i < 0 {
                }
            }
        }
    }
    found.is_some()
}

/// Whether the string `s` ends with `suffix` (`str::ends_with`).
pub fn ends_with(s: &str, suffix: &str) -> (r: bool)
    ensures
        r == is_suffix(suffix@, s@),
{
    let sv = chars_of(s);
    let pv = chars_of(suffix);
    if pv.len() > sv.len() {
        return false;
    }
    matches_at(&sv, &pv, sv.len() - pv.len())
}

/// Whether two strings have the same characters.
pub fn same_text(a: &str, b: &str) -> (r: bool)
    ensures
        r == (a@ == b@),
{
    let x = String::from_str(a);
    let y = String::from_str(b);
    x == y
}

/// The decimal digit `d` as a character.
pub open spec fn digit_char(d: nat) -> char {
    if d == 0 { '0' }
    else if d == 1 { '1' }
    else if d == 2 { '2' }
    else if d == 3 { '3' }
    else if d == 4 { '4' }
    else if d == 5 { '5' }
    else if d == 6 { '6' }
    else if d == 7 { '7' }
    else if d == 8 { '8' }
    else { '9' }
}

/// The decimal notation of `n`, without leading zeros.
pub open spec fn decimal_text(n: nat) -> Seq<char>
    decreases n,
{
    if n < 10 {
        seq![digit_char(n)]
    } else {
        decimal_text(n / 10).push(digit_char(n % 10))
    }
}

fn digit_str(d: u64) -> (r: &'static str)
    requires
        d < 10,
    ensures
        r@ == seq![digit_char(d as nat)],
{
    proof {
        reveal_strlit("0");
        reveal_strlit("1");
        reveal_strlit("2");
        reveal_strlit("3");
        reveal_strlit("4");
        reveal_strlit("5");
        reveal_strlit("6");
        reveal_strlit("7");
        reveal_strlit("8");
        reveal_strlit("9");
    }
    if d == 0 { "0" }
    else if d == 1 { "1" }
    else if d == 2 { "2" }
    else if d == 3 { "3" }
    else if d == 4 { "4" }
    else if d == 5 { "5" }
    else if d == 6 { "6" }
    else if d == 7 { "7" }
    else if d == 8 { "8" }
    else { "9" }
}

/// The decimal notation of `n` (what `format!("{}", n)` writes).
pub fn decimal_u64(n: u64) -> (r: String)
    ensures
        r@ == decimal_text(n as nat),
    decreases n,
{
    if n < 10 {
        String::from_str(digit_str(n))
    } else {
        let mut s = decimal_u64(n / 10);
        s.append(digit_str(n % 10));
        s
    }
}

/// The decimal notation of an integer, with a leading `-` when negative.
pub open spec fn signed_decimal_text(n: int) -> Seq<char> {
    if n < 0 {
        seq!['-'] + decimal_text((-n) as nat)
    } else {
        decimal_text(n as nat)
    }
}

/// The decimal notation of `n` (what `format!("{}", n)` writes).
pub fn decimal_i64(n: i64) -> (r: String)
    ensures
        r@ == signed_decimal_text(n as int),
{
    if n < 0 {
        let m: u64 = ((-(n + 1)) as u64) + 1;
        let mut s = String::from_str("-");
        proof { reveal_strlit("-"); }
        s.append(decimal_u64(m).as_str());
        s
    } else {
        decimal_u64(n as u64)
    }
}

/// The three digits of `n < 1000`, with leading zeros.
pub open spec fn three_digits(n: nat) -> Seq<char> {
    seq![digit_char(n / 100), digit_char((n / 10) % 10), digit_char(n % 10)]
}

/// `n < 1000` written with exactly three digits (`format!("{:03}", n)`).
pub fn three_digit_text(n: u64) -> (r: String)
    requires
        n < 1000,
    ensures
        r@ == three_digits(n as nat),
{
    let mut s = String::from_str(digit_str(n / 100));
    s.append(digit_str((n / 10) % 10));
    s.append(digit_str(n % 10));
    s
}

} // verus!
