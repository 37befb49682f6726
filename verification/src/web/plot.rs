//! The alert plot apart from its drawing: the JMA colour of each seismic
//! intensity class, the intensity label, and the order of the channel panels.
use vstd::prelude::*;
use vstd::string::*;
use crate::text::{chars_of, same_text};
use crate::web::alerts::shindo_display;

verus! {

/// The JMA colour (red, green, blue) in which the alert plot draws an
/// intensity class; white for a text that names no class.
pub open spec fn jma_class_color(class: Seq<char>) -> (u8, u8, u8) {
    if class == "0"@ {
        (242, 242, 255)
    } else if class == "1"@ {
        (160, 238, 255)
    } else if class == "2"@ {
        (0, 187, 255)
    } else if class == "3"@ {
        (51, 255, 0)
    } else if class == "4"@ {
        (255, 255, 0)
    } else if class == "5-"@ {
        (255, 153, 0)
    } else if class == "5+"@ {
        (255, 40, 0)
    } else if class == "6-"@ {
        (165, 0, 33)
    } else if class == "6+"@ {
        (85, 0, 17)
    } else if class == "7"@ {
        (85, 0, 85)
    } else {
        (255, 255, 255)
    }
}

/// The colour of an intensity class on the alert plot.
pub fn get_jma_color(shindo: &str) -> (r: (u8, u8, u8))
    ensures
        r == jma_class_color(shindo@),
{
    if same_text(shindo, "0") {
        (242, 242, 255)
    } else if same_text(shindo, "1") {
        (160, 238, 255)
    } else if same_text(shindo, "2") {
        (0, 187, 255)
    } else if same_text(shindo, "3") {
        (51, 255, 0)
    } else if same_text(shindo, "4") {
        (255, 255, 0)
    } else if same_text(shindo, "5-") {
        (255, 153, 0)
    } else if same_text(shindo, "5+") {
        (255, 40, 0)
    } else if same_text(shindo, "6-") {
        (165, 0, 33)
    } else if same_text(shindo, "6+") {
        (85, 0, 17)
    } else if same_text(shindo, "7") {
        (85, 0, 85)
    } else {
        (255, 255, 255)
    }
}

/// The label of the alert plot for an intensity class: `[震度 {class}相当]`,
/// with the halves of classes 5 and 6 written as 弱 and 強.
pub fn shindo_label(shindo: &str) -> (r: String)
    ensures
        r@ == "[震度 "@ + shindo_display(shindo@) + "相当]"@,
{
    let display: &str = if same_text(shindo, "5-") {
        "5弱"
    } else if same_text(shindo, "5+") {
        "5強"
    } else if same_text(shindo, "6-") {
        "6弱"
    } else if same_text(shindo, "6+") {
        "6強"
    } else {
        shindo
    };
    let mut r = String::from_str("[震度 ");
    r.append(display);
    r.append("相当]");
    r
}

/// Where a channel's panel goes: vertical (`…Z`) first, then north (`…N`),
/// then east (`…E`), then the others.
pub open spec fn panel_rank(c: Seq<char>) -> int {
    if c.len() > 0 && c.last() == 'Z' {
        0
    } else if c.len() > 0 && c.last() == 'N' {
        1
    } else if c.len() > 0 && c.last() == 'E' {
        2
    } else {
        3
    }
}

/// Whether `a` comes before `b` in lexicographic order of code points (the
/// order of `str`, whose UTF-8 bytes keep it).
pub open spec fn chars_lt(a: Seq<char>, b: Seq<char>) -> bool
    decreases a.len(),
{
    if a.len() == 0 {
        b.len() > 0
    } else if b.len() == 0 {
        false
    } else if a[0] != b[0] {
        (a[0] as u32) < (b[0] as u32)
    } else {
        chars_lt(a.drop_first(), b.drop_first())
    }
}

/// Whether the panel of channel `a` goes above that of channel `b`: by
/// rank, then by name.
pub open spec fn panel_lt(a: Seq<char>, b: Seq<char>) -> bool {
    panel_rank(a) < panel_rank(b) || (panel_rank(a) == panel_rank(b) && chars_lt(a, b))
}

proof fn lemma_chars_lt_irreflexive(a: Seq<char>)
    ensures
        !chars_lt(a, a),
    decreases a.len(),
{
    if a.len() > 0 {
        lemma_chars_lt_irreflexive(a.drop_first());
    }
}

proof fn lemma_chars_lt_transitive(a: Seq<char>, b: Seq<char>, c: Seq<char>)
    requires
        chars_lt(a, b),
        chars_lt(b, c),
    ensures
        chars_lt(a, c),
    decreases a.len(),
{
    if a.len() > 0 && b.len() > 0 && c.len() > 0 && a[0] == b[0] && b[0] == c[0] {
        lemma_chars_lt_transitive(a.drop_first(), b.drop_first(), c.drop_first());
    }
}

proof fn lemma_panel_lt_order(a: Seq<char>, b: Seq<char>, c: Seq<char>)
    ensures
        !panel_lt(a, a),
        panel_lt(a, b) && panel_lt(b, c) ==> panel_lt(a, c),
{
    lemma_chars_lt_irreflexive(a);
    if panel_lt(a, b) && panel_lt(b, c) && panel_rank(a) == panel_rank(b) && panel_rank(b)
        == panel_rank(c) {
        lemma_chars_lt_transitive(a, b, c);
    }
}

fn rank_of(c: &Vec<char>) -> (r: u8)
    ensures
        r == panel_rank(c@),
{
    if c.len() == 0 {
        return 3;
    }
    let last = c[c.len() - 1];
    if last == 'Z' {
        0
    } else if last == 'N' {
        1
    } else if last == 'E' {
        2
    } else {
        3
    }
}

fn text_lt(a: &Vec<char>, b: &Vec<char>) -> (r: bool)
    ensures
        r == chars_lt(a@, b@),
{
    let mut i: usize = 0;
    assert(a@.skip(0) =~= a@ && b@.skip(0) =~= b@);
    while i < a.len() && i < b.len() && a[i] == b[i]
        invariant
            i <= a@.len(),
            i <= b@.len(),
            chars_lt(a@, b@) == chars_lt(a@.skip(i as int), b@.skip(i as int)),
        decreases a@.len() - i,
    {
        assert(a@.skip(i as int).drop_first() =~= a@.skip(i + 1));
        assert(b@.skip(i as int).drop_first() =~= b@.skip(i + 1));
        i = i + 1;
    }
    if i == a.len() {
        i < b.len()
    } else if i == b.len() {
        false
    } else {
        assert(a@.skip(i as int)[0] == a@[i as int] && b@.skip(i as int)[0] == b@[i as int]);
        (a[i] as u32) < (b[i] as u32)
    }
}

fn panel_lt_exec(a: &Vec<char>, b: &Vec<char>) -> (r: bool)
    ensures
        r == panel_lt(a@, b@),
{
    let ra = rank_of(a);
    let rb = rank_of(b);
    ra < rb || (ra == rb && text_lt(a, b))
}

/// The channels in the order of their panels on the alert plot: vertical,
/// north, east, then the others, each group by name.
pub fn panel_order(channels: &Vec<String>) -> (r: Vec<String>)
    ensures
        r@.to_multiset() == channels@.to_multiset(),
        forall|i: int, j: int| 0 <= i < j < r@.len() ==> !panel_lt(r@[j]@, r@[i]@),
{
    let mut out: Vec<String> = Vec::new();
    let mut i: usize = 0;
    assert(channels@.take(0) =~= Seq::<String>::empty());
    while i < channels.len()
        invariant
            i <= channels@.len(),
            out@.to_multiset() == channels@.take(i as int).to_multiset(),
            forall|a: int, b: int| 0 <= a < b < out@.len() ==> !panel_lt(out@[b]@, out@[a]@),
        decreases channels@.len() - i,
    {
        let x = channels[i].clone();
        let xc = chars_of(x.as_str());
        let mut p: usize = 0;
        let mut go = true;
        while p < out.len() && go
            invariant
                p <= out@.len(),
                xc@ == x@,
                forall|k: int| 0 <= k < p ==> !panel_lt(x@, out@[k]@),
                !go ==> p < out@.len() && panel_lt(x@, out@[p as int]@),
            decreases out@.len() - p + (if go { 1int } else { 0 }),
        {
            let oc = chars_of(out[p].as_str());
            if panel_lt_exec(&xc, &oc) {
                go = false;
            } else {
                p = p + 1;
            }
        }
        let q: usize = p;
        let ghost old_out = out@;
        proof {
            assert forall|k: int| 0 <= k < q implies !panel_lt(x@, #[trigger] old_out[k]@) by {}
            assert(q < old_out.len() ==> panel_lt(x@, old_out[q as int]@));
        }
        out.insert(q, x);
        proof {
            let w = out@;
            assert(w == old_out.insert(q as int, x));
            assert(channels@.take(i + 1) =~= channels@.take(i as int).push(channels@[i as int]));
            assert(x == channels@[i as int]);
            vstd::seq_lib::to_multiset_insert(old_out, q as int, x);
            vstd::seq_lib::to_multiset_build(channels@.take(i as int), x);
            assert forall|a: int, b: int| 0 <= a < b < w.len() implies !panel_lt(w[b]@, w[a]@) by {
                if b < q {
                    assert(w[a] == old_out[a] && w[b] == old_out[b]);
                } else if b == q {
                    assert(w[b] == x && w[a] == old_out[a]);
                    lemma_panel_lt_order(x@, old_out[a]@, x@);
                } else if a == q {
                    assert(w[a] == x && w[b] == old_out[b - 1]);
                    let m = old_out[b - 1]@;
                    let first = old_out[q as int]@;
                    lemma_panel_lt_order(m, x@, first);
                    lemma_panel_lt_order(first, first, first);
                } else if a < q {
                    assert(w[a] == old_out[a] && w[b] == old_out[b - 1]);
                } else {
                    assert(w[a] == old_out[a - 1] && w[b] == old_out[b - 1]);
                }
            }
        }
        i = i + 1;
    }
    assert(channels@.take(i as int) =~= channels@);
    out
}

} // verus!
