//! Station metadata from FDSN web services: the query URLs, and the text
//! structure of the StationXML replies (channel blocks, instrument
//! sensitivity, each channel's poles-and-zeros stage, its gain, and the
//! texts of the complex poles and zeros). Fetching the documents and reading
//! the numbers out of these texts is the application's part.
use vstd::prelude::*;
use vstd::string::*;
use crate::text::{chars_of, char_range, find_from, find_chars, lemma_find_from, occurs_at, contains_str, contains_text};
use crate::parser::stationxml::{close_tag, extract_simple_tag, opt_text, simple_tag_value};
use crate::forward::texts;

verus! {

/// The pieces of `s` from position `from` on, cut at each occurrence of
/// `sep` (`str::split`).
pub open spec fn split_from(s: Seq<char>, sep: Seq<char>, from: int) -> Seq<Seq<char>>
    decreases s.len() - from,
{
    if sep.len() == 0 || from < 0 || from > s.len() {
        seq![s.subrange(from, s.len() as int)]
    } else {
        match find_from(s, sep, from) {
            Some(i) => {
                proof {
                    lemma_find_from(s, sep, from);
                }
                seq![s.subrange(from, i)] + split_from(s, sep, i + sep.len())
            },
            None => seq![s.subrange(from, s.len() as int)],
        }
    }
}

/// The pieces joined again with `sep` between them.
pub open spec fn join_with(pieces: Seq<Seq<char>>, sep: Seq<char>) -> Seq<char>
    decreases pieces.len(),
{
    if pieces.len() == 0 {
        Seq::empty()
    } else if pieces.len() == 1 {
        pieces[0]
    } else {
        pieces[0] + sep + join_with(pieces.drop_first(), sep)
    }
}

proof fn lemma_split_from_nonempty(s: Seq<char>, sep: Seq<char>, from: int)
    ensures
        split_from(s, sep, from).len() >= 1,
{
}

proof fn lemma_split_join_from(s: Seq<char>, sep: Seq<char>, from: int)
    requires
        sep.len() > 0,
        0 <= from <= s.len(),
    ensures
        join_with(split_from(s, sep, from), sep) == s.subrange(from, s.len() as int),
    decreases s.len() - from,
{
    lemma_find_from(s, sep, from);
    match find_from(s, sep, from) {
        Some(i) => {
            let next = i + sep.len();
            lemma_split_join_from(s, sep, next);
            lemma_split_from_nonempty(s, sep, next);
            let parts = split_from(s, sep, from);
            assert(parts.drop_first() =~= split_from(s, sep, next));
            assert(s.subrange(i, next) == sep);
            assert(s.subrange(from, i) + sep + s.subrange(next, s.len() as int) =~= s.subrange(
                from,
                s.len() as int,
            ));
        },
        None => {},
    }
}

/// Cutting at a non-empty separator loses nothing: the pieces joined with
/// the separator give back the text.
pub proof fn lemma_split_join(s: Seq<char>, sep: Seq<char>)
    requires
        sep.len() > 0,
    ensures
        join_with(split_from(s, sep, 0), sep) == s,
{
    lemma_split_join_from(s, sep, 0);
    assert(s.subrange(0, s.len() as int) =~= s);
}

/// The pieces of `s` cut at each occurrence of the non-empty `sep`.
pub fn split_pieces(s: &str, sep: &str) -> (r: Vec<String>)
    requires
        sep@.len() > 0,
    ensures
        texts(r@) == split_from(s@, sep@, 0),
{
    let cs = chars_of(s);
    let sv = chars_of(sep);
    let n = cs.len();
    let mut pieces: Vec<String> = Vec::new();
    let mut from: usize = 0;
    loop
        invariant_except_break
            n == s@.len(),
            cs@ == s@,
            sv@ == sep@,
            sep@.len() > 0,
            from <= n,
            texts(pieces@) + split_from(s@, sep@, from as int) == split_from(s@, sep@, 0),
        ensures
            texts(pieces@) == split_from(s@, sep@, 0),
        decreases n - from,
    {
        proof { lemma_find_from(s@, sep@, from as int); }
        let found = find_chars(&cs, &sv, from);
        let ghost before = pieces@;
        match found {
            Some(i) => {
                let piece = char_range(s, from, i);
                pieces.push(piece);
                assert(texts(pieces@) =~= texts(before).push(s@.subrange(from as int, i as int)));
                let ghost old_from = from as int;
                from = i + sv.len();
                assert(split_from(s@, sep@, old_from) =~= seq![s@.subrange(old_from, i as int)]
                    + split_from(s@, sep@, from as int));
                assert(texts(pieces@) + split_from(s@, sep@, from as int) =~= texts(before)
                    + split_from(s@, sep@, old_from));
            },
            None => {
                let piece = char_range(s, from, n);
                pieces.push(piece);
                assert(texts(pieces@) =~= texts(before).push(s@.subrange(from as int, n as int)));
                assert(split_from(s@, sep@, from as int) =~= seq![s@.subrange(from as int, n as int)]);
                assert(texts(pieces@) =~= texts(before) + split_from(s@, sep@, from as int));
                break;
            },
        }
    }
    pieces
}

/// The blocks of a response document that follow each `<Channel`.
pub open spec fn channel_blocks_of(xml: Seq<char>) -> Seq<Seq<char>> {
    split_from(xml, "<Channel"@, 0).drop_first()
}

/// The text after each `<Channel` of a response document, up to the next one.
pub fn channel_blocks(xml: &str) -> (r: Vec<String>)
    ensures
        texts(r@) == channel_blocks_of(xml@),
{
    proof {
        reveal_strlit("<Channel");
        lemma_split_from_nonempty(xml@, "<Channel"@, 0);
    }
    let mut all = split_pieces(xml, "<Channel");
    assert(all@.len() >= 1) by {
        assert(texts(all@).len() == all@.len());
    }
    let ghost before = all@;
    all.remove(0);
    assert(all@ =~= before.drop_first());
    assert(texts(all@) =~= texts(before).drop_first());
    all
}

/// The poles-and-zeros stage of a channel block: from its first
/// `<PolesZeros` up to the following `</PolesZeros>` (or the block's end).
pub open spec fn poles_zeros_block_of(ch: Seq<char>) -> Option<Seq<char>> {
    match find_from(ch, "<PolesZeros"@, 0) {
        None => None,
        Some(i) => {
            let rest = ch.subrange(i, ch.len() as int);
            match find_from(rest, "</PolesZeros>"@, 0) {
                Some(e) => Some(rest.subrange(0, e)),
                None => Some(rest),
            }
        },
    }
}

/// The poles-and-zeros stage of a channel block, if it has one.
pub fn poles_zeros_block(ch: &str) -> (r: Option<String>)
    ensures
        opt_text(r) == poles_zeros_block_of(ch@),
{
    let cs = chars_of(ch);
    let open = chars_of("<PolesZeros");
    proof { lemma_find_from(ch@, "<PolesZeros"@, 0); }
    match find_chars(&cs, &open, 0) {
        None => None,
        Some(i) => {
            let rest = char_range(ch, i, cs.len());
            let rc = chars_of(rest.as_str());
            let close = chars_of("</PolesZeros>");
            proof { lemma_find_from(rest@, "</PolesZeros>"@, 0); }
            match find_chars(&rc, &close, 0) {
                Some(e) => Some(char_range(rest.as_str(), 0, e)),
                None => Some(rest),
            }
        },
    }
}

/// The part of a stage from its `<StageGain>` on.
pub open spec fn stage_gain_block_of(pz: Seq<char>) -> Option<Seq<char>> {
    match find_from(pz, "<StageGain>"@, 0) {
        None => None,
        Some(i) => Some(pz.subrange(i, pz.len() as int)),
    }
}

/// The part of a stage from its `<StageGain>` on, if it has one.
pub fn stage_gain_block(pz: &str) -> (r: Option<String>)
    ensures
        opt_text(r) == stage_gain_block_of(pz@),
{
    let cs = chars_of(pz);
    let open = chars_of("<StageGain>");
    proof { lemma_find_from(pz@, "<StageGain>"@, 0); }
    match find_chars(&cs, &open, 0) {
        None => None,
        Some(i) => Some(char_range(pz, i, cs.len())),
    }
}

/// The texts of the real and imaginary parts of one complex element.
pub type ComplexTexts = (Option<Seq<char>>, Option<Seq<char>>);

/// The elements `<tag ...>...</tag>` of `b` from `from` on, in order, each by
/// the texts of its `Real` and `Imaginary` children; the scan stops at an
/// element that is never closed.
pub open spec fn complex_texts_from(b: Seq<char>, tag: Seq<char>, from: int) -> Seq<ComplexTexts>
    decreases b.len() - from,
{
    let open = seq!['<'] + tag;
    let close = close_tag(tag);
    if from < 0 || from > b.len() {
        Seq::empty()
    } else {
        match find_from(b, open, from) {
            None => Seq::empty(),
            Some(st) => {
                proof {
                    lemma_find_from(b, open, from);
                }
                match find_from(b, close, st) {
                    None => Seq::empty(),
                    Some(e) => {
                        proof {
                            lemma_find_from(b, close, st);
                        }
                        let next = e + close.len();
                        let el = b.subrange(st, next);
                        seq![(simple_tag_value(el, "Real"@), simple_tag_value(el, "Imaginary"@))]
                            + complex_texts_from(b, tag, next)
                    },
                }
            },
        }
    }
}

/// The texts of a list of parsed complex elements.
pub open spec fn complex_views(v: Seq<(Option<String>, Option<String>)>) -> Seq<ComplexTexts> {
    v.map_values(|p: (Option<String>, Option<String>)| (opt_text(p.0), opt_text(p.1)))
}

fn tag_opening(tag: &Vec<char>) -> (r: Vec<char>)
    ensures
        r@ == seq!['<'] + tag@,
{
    let mut r: Vec<char> = Vec::new();
    r.push('<');
    let mut i: usize = 0;
    while i < tag.len()
        invariant
            i <= tag@.len(),
            r@ == seq!['<'] + tag@.take(i as int),
        decreases tag@.len() - i,
    {
        r.push(tag[i]);
        assert(tag@.take(i + 1) =~= tag@.take(i as int).push(tag@[i as int]));
        i = i + 1;
    }
    assert(tag@.take(tag@.len() as int) =~= tag@);
    r
}

fn tag_closing(tag: &Vec<char>) -> (r: Vec<char>)
    ensures
        r@ == close_tag(tag@),
{
    let mut r: Vec<char> = Vec::new();
    r.push('<');
    r.push('/');
    let mut i: usize = 0;
    while i < tag.len()
        invariant
            i <= tag@.len(),
            r@ == seq!['<', '/'] + tag@.take(i as int),
        decreases tag@.len() - i,
    {
        r.push(tag[i]);
        assert(tag@.take(i + 1) =~= tag@.take(i as int).push(tag@[i as int]));
        i = i + 1;
    }
    r.push('>');
    assert(tag@.take(tag@.len() as int) =~= tag@);
    assert(r@ =~= close_tag(tag@));
    r
}

/// The `<tag ...>...</tag>` elements of a stage (such as `Pole` or `Zero`),
/// each by the texts of its `Real` and `Imaginary` parts.
pub fn complex_value_texts(block: &str, tag: &str) -> (r: Vec<(Option<String>, Option<String>)>)
    ensures
        complex_views(r@) == complex_texts_from(block@, tag@, 0),
{
    let b = chars_of(block);
    let t = chars_of(tag);
    let open = tag_opening(&t);
    let close = tag_closing(&t);
    let n = b.len();
    let mut out: Vec<(Option<String>, Option<String>)> = Vec::new();
    let mut from: usize = 0;
    loop
        invariant_except_break
            n == block@.len(),
            b@ == block@,
            open@ == seq!['<'] + tag@,
            close@ == close_tag(tag@),
            from <= n,
            complex_views(out@) + complex_texts_from(block@, tag@, from as int) == complex_texts_from(
                block@,
                tag@,
                0,
            ),
        ensures
            complex_views(out@) == complex_texts_from(block@, tag@, 0),
        decreases n - from,
    {
        let ghost before = out@;
        let ghost rest = complex_texts_from(block@, tag@, from as int);
        proof { lemma_find_from(block@, open@, from as int); }
        match find_chars(&b, &open, from) {
            None => {
                assert(rest =~= Seq::<ComplexTexts>::empty());
                assert(complex_views(out@) =~= complex_views(out@) + rest);
                break;
            },
            Some(st) => {
                proof { lemma_find_from(block@, close@, st as int); }
                match find_chars(&b, &close, st) {
                    None => {
                        assert(rest =~= Seq::<ComplexTexts>::empty());
                        assert(complex_views(out@) =~= complex_views(out@) + rest);
                        break;
                    },
                    Some(e) => {
                        let next = e + close.len();
                        let el = char_range(block, st, next);
                        let re = extract_simple_tag(el.as_str(), "Real");
                        let im = extract_simple_tag(el.as_str(), "Imaginary");
                        let ghost item = (opt_text(re), opt_text(im));
                        out.push((re, im));
                        assert(complex_views(out@) =~= complex_views(before).push(item));
                        assert(rest =~= seq![item] + complex_texts_from(block@, tag@, next as int));
                        assert(complex_views(out@) + complex_texts_from(block@, tag@, next as int)
                            =~= complex_views(before) + rest);
                        from = next;
                    },
                }
            },
        }
    }
    out
}

/// The station name parameter that a server's query uses: `station` for
/// the Raspberry Shake server, `sta` otherwise.
pub open spec fn station_param(server: Seq<char>) -> Seq<char> {
    if contains_text(server, "raspberryshake"@) {
        "station"@
    } else {
        "sta"@
    }
}

/// The query for station `net.sta` at the given detail `level`.
pub open spec fn station_query_url_of(server: Seq<char>, net: Seq<char>, sta: Seq<char>, level: Seq<char>) -> Seq<char> {
    server + "?net="@ + net + "&"@ + station_param(server) + "="@ + sta + "&level="@ + level
        + "&format=xml"@
}

/// The StationXML query for station `net.sta` at detail `level`
/// (`channel` or `resp`) on an FDSN station service.
pub fn station_query_url(server: &str, net: &str, sta: &str, level: &str) -> (r: String)
    ensures
        r@ == station_query_url_of(server@, net@, sta@, level@),
{
    let param = if contains_str(server, "raspberryshake") { "station" } else { "sta" };
    let mut u = String::from_str(server);
    u.append("?net=");
    u.append(net);
    u.append("&");
    u.append(param);
    u.append("=");
    u.append(sta);
    u.append("&level=");
    u.append(level);
    u.append("&format=xml");
    u
}

/// The FDSN station services that are asked, in order.
pub fn station_servers() -> (r: Vec<&'static str>)
    ensures
        r@.len() == 2,
        r@[0]@ == "https://data.raspberryshake.org/fdsnws/station/1/query"@,
        r@[1]@ == "https://service.iris.edu/fdsnws/station/1/query"@,
{
    vec![
        "https://data.raspberryshake.org/fdsnws/station/1/query",
        "https://service.iris.edu/fdsnws/station/1/query",
    ]
}

/// Whether a reply holds no station data: empty, or a "No results" or
/// "404 Not Found" page.
pub open spec fn is_empty_reply_of(xml: Seq<char>) -> bool {
    xml.len() == 0 || contains_text(xml, "No results"@) || contains_text(xml, "404 Not Found"@)
}

/// Whether a reply holds no station data.
pub fn is_empty_reply(xml: &str) -> (r: bool)
    ensures
        r == is_empty_reply_of(xml@),
{
    xml.is_empty() || contains_str(xml, "No results") || contains_str(xml, "404 Not Found")
}

/// The text of a channel's instrument sensitivity: the first `Value` after
/// its first `<InstrumentSensitivity>`, trimmed.
pub open spec fn sensitivity_text_of(ch: Seq<char>) -> Option<Seq<char>> {
    match find_from(ch, "<InstrumentSensitivity>"@, 0) {
        None => None,
        Some(i) => simple_tag_value(ch.subrange(i, ch.len() as int), "Value"@),
    }
}

/// The text of a channel block's instrument sensitivity, if it has one.
pub fn sensitivity_text(ch: &str) -> (r: Option<String>)
    ensures
        opt_text(r) == sensitivity_text_of(ch@),
{
    let cs = chars_of(ch);
    let open = chars_of("<InstrumentSensitivity>");
    proof { lemma_find_from(ch@, "<InstrumentSensitivity>"@, 0); }
    match find_chars(&cs, &open, 0) {
        None => None,
        Some(i) => {
            let rest = char_range(ch, i, cs.len());
            extract_simple_tag(rest.as_str(), "Value")
        },
    }
}

} // verus!
