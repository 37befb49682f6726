//! Text extraction from StationXML documents (tags, nested values and
//! attributes). Turning the extracted text into numbers, and fetching the
//! documents, is the application's part.
use vstd::prelude::*;
use vstd::string::*;
use crate::text::{chars_of, char_range, trim_text, trimmed, find_from, find_chars, lemma_find_from, lemma_find_first, occurs_at};

verus! {

/// An optional string, by its characters.
pub open spec fn opt_text(o: Option<String>) -> Option<Seq<char>> {
    match o {
        Some(s) => Some(s@),
        None => None,
    }
}

/// The opening tag `<tag>`.
pub open spec fn open_tag(tag: Seq<char>) -> Seq<char> {
    seq!['<'] + tag + seq!['>']
}

/// The closing tag `</tag>`.
pub open spec fn close_tag(tag: Seq<char>) -> Seq<char> {
    seq!['<', '/'] + tag + seq!['>']
}

/// The trimmed text between the first `<tag>` of `b` and the first `</tag>`
/// after it.
pub open spec fn simple_tag_value(b: Seq<char>, tag: Seq<char>) -> Option<Seq<char>> {
    match find_from(b, open_tag(tag), 0) {
        None => None,
        Some(i) => {
            let vs = i + open_tag(tag).len();
            match find_from(b, close_tag(tag), vs) {
                None => None,
                Some(e) => Some(trimmed(b.subrange(vs, e))),
            }
        },
    }
}

/// `s` without its leading `c` characters (`str::trim_start_matches`).
pub open spec fn strip_leading(s: Seq<char>, c: char) -> Seq<char>
    decreases s.len(),
{
    if s.len() > 0 && s[0] == c {
        strip_leading(s.drop_first(), c)
    } else {
        s
    }
}

/// `s` without its trailing `c` characters (`str::trim_end_matches`).
pub open spec fn strip_trailing(s: Seq<char>, c: char) -> Seq<char>
    decreases s.len(),
{
    if s.len() > 0 && s.last() == c {
        strip_trailing(s.drop_last(), c)
    } else {
        s
    }
}

/// The value that [`extract_xml_value`] reads: with no outer tag, the simple
/// tag named by `inner` (brackets removed); otherwise, after the first
/// `outer`, either the text up to the next `<` (no inner tag) or the text
/// between the first `inner` and the next `</`, trimmed.
pub open spec fn xml_value(b: Seq<char>, outer: Seq<char>, inner: Seq<char>) -> Option<Seq<char>> {
    if outer.len() == 0 {
        simple_tag_value(b, strip_trailing(strip_leading(inner, '<'), '>'))
    } else {
        match find_from(b, outer, 0) {
            None => None,
            Some(oi) => {
                let s0 = oi + outer.len();
                if inner.len() == 0 {
                    match find_from(b, seq!['<'], s0) {
                        None => None,
                        Some(e) => Some(trimmed(b.subrange(s0, e))),
                    }
                } else {
                    match find_from(b, inner, s0) {
                        None => None,
                        Some(ii) => {
                            let vs = ii + inner.len();
                            match find_from(b, seq!['<', '/'], vs) {
                                None => None,
                                Some(e) => Some(trimmed(b.subrange(vs, e))),
                            }
                        },
                    }
                }
            },
        }
    }
}

/// The text after the first `prefix` (such as `code="`) up to the next `"`.
pub open spec fn attr_value(b: Seq<char>, prefix: Seq<char>) -> Option<Seq<char>> {
    match find_from(b, prefix, 0) {
        None => None,
        Some(i) => {
            let st = i + prefix.len();
            match find_from(b, seq!['"'], st) {
                None => None,
                Some(e) => Some(b.subrange(st, e)),
            }
        },
    }
}

/// An attribute written as its prefix, a value without `"`, and a closing
/// `"` reads back as the value, whatever follows.
pub proof fn lemma_attr_round_trip(prefix: Seq<char>, value: Seq<char>, rest: Seq<char>)
    requires
        forall|i: int| 0 <= i < value.len() ==> value[i] != '"',
    ensures
        attr_value(prefix + value + seq!['"'] + rest, prefix) == Some(value),
{
    let b = prefix + value + seq!['"'] + rest;
    let q = seq!['"'];
    let st = prefix.len() as int;
    let e = st + value.len();
    assert(b.subrange(0, st) =~= prefix);
    lemma_find_first(b, prefix, 0, 0);
    assert(b.subrange(e, e + 1) =~= q);
    assert forall|j: int| st <= j < e implies !#[trigger] occurs_at(b, q, j) by {
        assert(b.subrange(j, j + 1)[0] == value[j - st]);
    }
    lemma_find_first(b, q, st, e);
    assert(b.subrange(st, e) =~= value);
}

/// A tag written as `<tag>`, a value without `<`, and `</tag>` reads back as
/// the trimmed value, whatever follows.
pub proof fn lemma_simple_tag_round_trip(tag: Seq<char>, value: Seq<char>, rest: Seq<char>)
    requires
        forall|i: int| 0 <= i < value.len() ==> value[i] != '<',
    ensures
        simple_tag_value(open_tag(tag) + value + close_tag(tag) + rest, tag) == Some(trimmed(value)),
{
    let b = open_tag(tag) + value + close_tag(tag) + rest;
    let o = open_tag(tag);
    let c = close_tag(tag);
    let vs = o.len() as int;
    let e = vs + value.len();
    assert(b.subrange(0, vs) =~= o);
    lemma_find_first(b, o, 0, 0);
    assert(b.subrange(e, e + c.len()) =~= c);
    assert forall|j: int| vs <= j < e implies !#[trigger] occurs_at(b, c, j) by {
        if j + c.len() <= b.len() {
            assert(b.subrange(j, j + c.len())[0] == value[j - vs]);
            assert(c[0] == '<');
        }
    }
    lemma_find_first(b, c, vs, e);
    assert(b.subrange(vs, e) =~= value);
}

/// `pre`, then `tag`, then `>`.
fn tag_pattern(closing: bool, tag: &Vec<char>) -> (r: Vec<char>)
    ensures
        r@ == (if closing { close_tag(tag@) } else { open_tag(tag@) }),
{
    let mut r: Vec<char> = Vec::new();
    r.push('<');
    if closing {
        r.push('/');
    }
    let mut i: usize = 0;
    let ghost head = r@;
    while i < tag.len()
        invariant
            i <= tag@.len(),
            r@ == head + tag@.take(i as int),
        decreases tag@.len() - i,
    {
        r.push(tag[i]);
        assert(tag@.take(i + 1) =~= tag@.take(i as int).push(tag@[i as int]));
        i = i + 1;
    }
    r.push('>');
    assert(tag@.take(tag@.len() as int) =~= tag@);
    assert(r@ =~= (if closing { close_tag(tag@) } else { open_tag(tag@) }));
    r
}

/// The trimmed text of `block` between character positions `from` and `to`.
fn trimmed_range(block: &str, from: usize, to: usize) -> (r: String)
    requires
        from <= to <= block@.len(),
    ensures
        r@ == trimmed(block@.subrange(from as int, to as int)),
{
    let piece = char_range(block, from, to);
    trim_text(piece.as_str())
}

/// Finds `p` in `h` from `from` on, with the bounds of what it finds.
fn find_in(h: &Vec<char>, p: &Vec<char>, from: usize) -> (r: Option<usize>)
    ensures
        r matches Some(i) ==> find_from(h@, p@, from as int) == Some(i as int) && from <= i && i
            + p@.len() <= h@.len() && h@.len() <= usize::MAX,
        r is None ==> find_from(h@, p@, from as int) is None,
{
    proof { lemma_find_from(h@, p@, from as int); }
    let hl = h.len();
    assert(hl == h@.len());
    find_chars(h, p, from)
}

fn simple_tag_chars(block: &str, b: &Vec<char>, tag: &Vec<char>) -> (r: Option<String>)
    requires
        b@ == block@,
    ensures
        opt_text(r) == simple_tag_value(block@, tag@),
{
    let open = tag_pattern(false, tag);
    let close = tag_pattern(true, tag);
    match find_in(b, &open, 0) {
        None => None,
        Some(i) => {
            let vs = i + open.len();
            match find_in(b, &close, vs) {
                None => None,
                Some(e) => Some(trimmed_range(block, vs, e)),
            }
        },
    }
}

/// Extract a simple XML tag value: `<Tag>value</Tag>`.
pub fn extract_simple_tag(block: &str, tag: &str) -> (r: Option<String>)
    ensures
        opt_text(r) == simple_tag_value(block@, tag@),
{
    let b = chars_of(block);
    let t = chars_of(tag);
    simple_tag_chars(block, &b, &t)
}

/// `s` without its leading `c` characters.
pub(crate) fn strip_leading_chars(s: &Vec<char>, c: char) -> (r: Vec<char>)
    ensures
        r@ == strip_leading(s@, c),
{
    let mut start: usize = 0;
    assert(s@.skip(0) =~= s@);
    while start < s.len() && s[start] == c
        invariant
            start <= s@.len(),
            strip_leading(s@, c) == strip_leading(s@.skip(start as int), c),
        decreases s@.len() - start,
    {
        assert(s@.skip(start as int).drop_first() =~= s@.skip(start + 1));
        start = start + 1;
    }
    let mut r: Vec<char> = Vec::new();
    let mut i = start;
    while i < s.len()
        invariant
            start <= i <= s@.len(),
            r@ == s@.subrange(start as int, i as int),
        decreases s@.len() - i,
    {
        r.push(s[i]);
        assert(s@.subrange(start as int, i + 1) =~= s@.subrange(start as int, i as int).push(s@[i as int]));
        i = i + 1;
    }
    assert(r@ =~= s@.skip(start as int));
    r
}

/// `s` without its trailing `c` characters.
pub(crate) fn strip_trailing_chars(s: &Vec<char>, c: char) -> (r: Vec<char>)
    ensures
        r@ == strip_trailing(s@, c),
{
    let mut end: usize = s.len();
    assert(s@.take(end as int) =~= s@);
    while end > 0 && s[end - 1] == c
        invariant
            end <= s@.len(),
            strip_trailing(s@, c) == strip_trailing(s@.take(end as int), c),
        decreases end,
    {
        assert(s@.take(end as int).drop_last() =~= s@.take(end - 1));
        end = end - 1;
    }
    let mut r: Vec<char> = Vec::new();
    let mut i: usize = 0;
    while i < end
        invariant
            i <= end <= s@.len(),
            r@ == s@.take(i as int),
        decreases end - i,
    {
        r.push(s[i]);
        assert(s@.take(i + 1) =~= s@.take(i as int).push(s@[i as int]));
        i = i + 1;
    }
    r
}

/// Extract value from nested XML: find outer_tag, then inner_tag within it.
pub fn extract_xml_value(block: &str, outer_tag: &str, inner_tag: &str) -> (r: Option<String>)
    ensures
        opt_text(r) == xml_value(block@, outer_tag@, inner_tag@),
{
    let b = chars_of(block);
    let inner = chars_of(inner_tag);
    if outer_tag.is_empty() {
        let name = strip_trailing_chars(&strip_leading_chars(&inner, '<'), '>');
        return simple_tag_chars(block, &b, &name);
    }
    let outer = chars_of(outer_tag);
    match find_in(&b, &outer, 0) {
        None => None,
        Some(oi) => {
            let s0 = oi + outer.len();
            if inner.len() == 0 {
                let mut lt: Vec<char> = Vec::new();
                lt.push('<');
                assert(lt@ =~= seq!['<']);
                match find_in(&b, &lt, s0) {
                    None => None,
                    Some(e) => Some(trimmed_range(block, s0, e)),
                }
            } else {
                match find_in(&b, &inner, s0) {
                    None => None,
                    Some(ii) => {
                        let vs = ii + inner.len();
                        let mut end_tag: Vec<char> = Vec::new();
                        end_tag.push('<');
                        end_tag.push('/');
                        assert(end_tag@ =~= seq!['<', '/']);
                        match find_in(&b, &end_tag, vs) {
                            None => None,
                            Some(e) => Some(trimmed_range(block, vs, e)),
                        }
                    },
                }
            }
        },
    }
}

/// Extract an XML attribute value: `code="EHZ"` → `EHZ`.
pub fn extract_attr(block: &str, attr_prefix: &str) -> (r: Option<String>)
    ensures
        opt_text(r) == attr_value(block@, attr_prefix@),
{
    let b = chars_of(block);
    let p = chars_of(attr_prefix);
    match find_in(&b, &p, 0) {
        None => None,
        Some(i) => {
            let st = i + p.len();
            let mut quote: Vec<char> = Vec::new();
            quote.push('"');
            assert(quote@ =~= seq!['"']);
            match find_in(&b, &quote, st) {
                None => None,
                Some(e) => Some(char_range(block, st, e)),
            }
        },
    }
}

} // verus!
