//! The formatted-text renderer: a flat string plus a list of style spans
//! becomes one markup string.
//!
//! Span offsets and lengths count UTF-16 code units, as the messaging backend
//! delivers them.  Every span contributes two boundary events, an open tag at
//! `offset` and a close tag at `offset + length`.  The text is scanned one
//! code unit at a time; at each position all events anchored there are
//! emitted before the character, later-registered events first (LIFO), which
//! lets overlapping spans produce interleaved output instead of failing.
//! Events anchored past the end of the text are emitted after it, in
//! ascending position order.  A lone surrogate code unit is replaced by a
//! space.  When no span has a tag the input text is returned verbatim.

use vstd::prelude::*;

verus! {

/// The closed set of span styles.  The first group has entries in the tag
/// table; the rest render as plain text.
#[derive(Debug, Clone)]
pub enum StyleKind {
    Bold,
    Italic,
    Underline,
    Strikethrough,
    Code,
    Preformatted,
    PreformattedCode,
    Hashtag,
    PhoneNumber,
    /// An inline link: the payload is the target URL.
    TextLink { url: String },
    PlainUrl,
    Mention,
    MentionName,
    Cashtag,
    BotCommand,
    EmailAddress,
    BankCardNumber,
    MediaTimestamp,
    BlockQuote,
    CustomEmoji,
    Spoiler,
    Unsupported,
}

/// One style annotation over the text, in UTF-16 code units.
#[derive(Debug, Clone)]
pub struct TextSpan {
    pub offset: u32,
    pub length: u32,
    pub style: StyleKind,
}

/// Whether the style has an entry in the tag table.
pub open spec fn has_tags(s: StyleKind) -> bool {
    match s {
        StyleKind::Bold
        | StyleKind::Italic
        | StyleKind::Underline
        | StyleKind::Strikethrough
        | StyleKind::Code
        | StyleKind::Preformatted
        | StyleKind::PreformattedCode
        | StyleKind::Hashtag
        | StyleKind::PhoneNumber
        | StyleKind::TextLink { .. }
        | StyleKind::PlainUrl => true,
        _ => false,
    }
}

/// The open tag of a style; empty for styles without tags.
pub open spec fn open_tag(s: StyleKind) -> Seq<char> {
    match s {
        StyleKind::Bold => "**"@,
        StyleKind::Italic => "<i>"@,
        StyleKind::Underline => "<u>"@,
        StyleKind::Strikethrough => "~~"@,
        StyleKind::Code => "`"@,
        StyleKind::Preformatted => "```\n"@,
        StyleKind::PreformattedCode => "<pre><code>"@,
        StyleKind::Hashtag => "#"@,
        StyleKind::PhoneNumber => "<phone>"@,
        StyleKind::TextLink { .. } => "["@,
        StyleKind::PlainUrl => "<a>"@,
        _ => Seq::empty(),
    }
}

/// The close tag of a style; empty for styles without tags.
pub open spec fn close_tag(s: StyleKind) -> Seq<char> {
    match s {
        StyleKind::Bold => "**"@,
        StyleKind::Italic => "</i>"@,
        StyleKind::Underline => "</u>"@,
        StyleKind::Strikethrough => "~~"@,
        StyleKind::Code => "`"@,
        StyleKind::Preformatted => "\n```"@,
        StyleKind::PreformattedCode => "</code></pre>"@,
        StyleKind::Hashtag => ""@,
        StyleKind::PhoneNumber => "</phone>"@,
        StyleKind::TextLink { url } => "]("@ + url@ + ")"@,
        StyleKind::PlainUrl => "</a>"@,
        _ => Seq::empty(),
    }
}

pub fn style_has_tags(s: &StyleKind) -> (r: bool)
    ensures
        r == has_tags(*s),
{
    match s {
        StyleKind::Bold
        | StyleKind::Italic
        | StyleKind::Underline
        | StyleKind::Strikethrough
        | StyleKind::Code
        | StyleKind::Preformatted
        | StyleKind::PreformattedCode
        | StyleKind::Hashtag
        | StyleKind::PhoneNumber
        | StyleKind::TextLink { .. }
        | StyleKind::PlainUrl => true,
        _ => false,
    }
}

fn push_open_tag(out: &mut String, s: &StyleKind)
    ensures
        final(out)@ == old(out)@ + open_tag(*s),
{
    let ghost pre = out@;
    match s {
        StyleKind::Bold => out.append("**"),
        StyleKind::Italic => out.append("<i>"),
        StyleKind::Underline => out.append("<u>"),
        StyleKind::Strikethrough => out.append("~~"),
        StyleKind::Code => out.append("`"),
        StyleKind::Preformatted => out.append("```\n"),
        StyleKind::PreformattedCode => out.append("<pre><code>"),
        StyleKind::Hashtag => out.append("#"),
        StyleKind::PhoneNumber => out.append("<phone>"),
        StyleKind::TextLink { .. } => out.append("["),
        StyleKind::PlainUrl => out.append("<a>"),
        _ => {
            proof {
                assert(pre + Seq::<char>::empty() =~= pre);
            }
        },
    }
}

fn push_close_tag(out: &mut String, s: &StyleKind)
    ensures
        final(out)@ == old(out)@ + close_tag(*s),
{
    let ghost pre = out@;
    match s {
        StyleKind::Bold => out.append("**"),
        StyleKind::Italic => out.append("</i>"),
        StyleKind::Underline => out.append("</u>"),
        StyleKind::Strikethrough => out.append("~~"),
        StyleKind::Code => out.append("`"),
        StyleKind::Preformatted => out.append("\n```"),
        StyleKind::PreformattedCode => out.append("</code></pre>"),
        StyleKind::Hashtag => out.append(""),
        StyleKind::PhoneNumber => out.append("</phone>"),
        StyleKind::TextLink { url } => {
            out.append("](");
            out.append(url.as_str());
            out.append(")");
            proof {
                assert(out@ =~= pre + ("]("@ + url@ + ")"@));
            }
        },
        StyleKind::PlainUrl => out.append("</a>"),
        _ => {
            proof {
                assert(pre + Seq::<char>::empty() =~= pre);
            }
        },
    }
}

/// The UTF-16 code units of one character: one unit below 0x10000, else a
/// surrogate pair.
pub open spec fn utf16_units_of_char(c: char) -> Seq<u16> {
    let v = c as u32;
    if v < 0x10000 {
        seq![v as u16]
    } else {
        seq![
            (0xD800 + (v - 0x10000) / 0x400) as u16,
            (0xDC00 + (v - 0x10000) % 0x400) as u16,
        ]
    }
}

/// The UTF-16 code units of a string.
pub open spec fn utf16_units(s: Seq<char>) -> Seq<u16>
    decreases s.len(),
{
    if s.len() == 0 {
        Seq::empty()
    } else {
        utf16_units(s.drop_last()) + utf16_units_of_char(s.last())
    }
}

/// The character a single code unit stands for in the output: itself when it
/// is a scalar value, a space when it is half of a surrogate pair.
pub open spec fn unit_char(u: u16) -> char {
    if 0xD800 <= u < 0xE000 {
        ' '
    } else {
        (u as u32) as char
    }
}

/// The code units of `s`, each replaced by the character it stands for.
pub open spec fn unit_chars(s: Seq<u16>) -> Seq<char> {
    Seq::new(s.len(), |k: int| unit_char(s[k]))
}

proof fn lemma_utf16_units_push(s: Seq<char>, c: char)
    ensures
        utf16_units(s.push(c)) == utf16_units(s) + utf16_units_of_char(c),
{
    assert(s.push(c).drop_last() =~= s);
    assert(s.push(c).last() == c);
}

/// Encode a string as its UTF-16 code units.
pub fn utf16_encode(text: &str) -> (r: Vec<u16>)
    ensures
        r@ == utf16_units(text@),
{
    broadcast use vstd::utf8::char_is_scalar;

    let n = text.unicode_len();
    let mut r: Vec<u16> = Vec::new();
    let mut i: usize = 0;
    while i < n
        invariant
            n == text@.len(),
            0 <= i <= n,
            r@ == utf16_units(text@.take(i as int)),
        decreases n - i,
    {
        let c = text.get_char(i);
        let v = c as u32;
        if v < 0x10000 {
            r.push(v as u16);
        } else {
            r.push(0xD800 + ((v - 0x10000) / 0x400) as u16);
            r.push(0xDC00 + ((v - 0x10000) % 0x400) as u16);
        }
        proof {
            assert(text@.take(i + 1).drop_last() =~= text@.take(i as int));
            assert(text@.take(i + 1) =~= text@.take(i as int).push(text@[i as int]));
            lemma_utf16_units_push(text@.take(i as int), text@[i as int]);
        }
        i = i + 1;
    }
    proof {
        assert(text@.take(n as int) =~= text@);
    }
    r
}

/// Relies on `char::from_u32` of std: the result is `Some` exactly for a
/// Unicode scalar value, and then holds the character with that code point.
#[verifier::external_body]
fn char_from_u32(v: u32) -> (r: Option<char>)
    ensures
        r matches Some(c) ==> c as u32 == v,
        (v < 0xD800 || (0xE000 <= v <= 0x10FFFF)) <==> r is Some,
{
    char::from_u32(v)
}

/// Relies on `String::push` of std: appends exactly the one character.
#[verifier::external_body]
fn push_char(out: &mut String, c: char)
    ensures
        final(out)@ == old(out)@ + seq![c],
{
    out.push(c);
}

/// Push the character a code unit stands for, a space for a surrogate half.
fn push_unit_char(out: &mut String, u: u16)
    ensures
        final(out)@ == old(out)@ + seq![unit_char(u)],
{
    if 0xD800 <= u && u < 0xE000 {
        push_char(out, ' ');
    } else {
        let c = match char_from_u32(u as u32) {
            Some(c) => c,
            None => ' ',  // unreachable: a non-surrogate 16-bit value is a scalar
        };
        proof {
            vstd::utf8::char_u32_cast(c, u as u32);
        }
        push_char(out, c);
    }
}

/// The tag emission of one span anchored at position `p`: its close tag where
/// the span ends, then its open tag where it starts.  A zero-length span
/// closes before it opens: its close event was registered after its open
/// event, and the later-registered event comes first.
pub open spec fn span_events_at(sp: TextSpan, p: int) -> Seq<char> {
    if has_tags(sp.style) {
        (if sp.offset + sp.length == p {
            close_tag(sp.style)
        } else {
            Seq::empty()
        }) + (if sp.offset == p {
            open_tag(sp.style)
        } else {
            Seq::empty()
        })
    } else {
        Seq::empty()
    }
}

/// All tags emitted at position `p`: spans later in the list come first.
pub open spec fn events_at(spans: Seq<TextSpan>, p: int) -> Seq<char>
    decreases spans.len(),
{
    if spans.len() == 0 {
        Seq::empty()
    } else {
        span_events_at(spans.last(), p) + events_at(spans.drop_last(), p)
    }
}

/// Whether some span has tags; when none has, the text is returned verbatim.
pub open spec fn any_tagged(spans: Seq<TextSpan>) -> bool {
    exists|j: int| 0 <= j < spans.len() && #[trigger] has_tags(spans[j].style)
}

/// The largest boundary position among the spans; -1 with no spans.
pub open spec fn max_anchor(spans: Seq<TextSpan>) -> int
    decreases spans.len(),
{
    if spans.len() == 0 {
        -1
    } else {
        let rest = max_anchor(spans.drop_last());
        let e = spans.last().offset + spans.last().length;
        if e >= rest {
            e
        } else {
            rest
        }
    }
}

/// The smallest boundary position of the span that is at least `p`; `None`
/// for a span without tags, which emits nothing anywhere.
pub open spec fn span_min_anchor_ge(sp: TextSpan, p: int) -> Option<int> {
    if !has_tags(sp.style) {
        None
    } else if sp.offset >= p {
        Some(sp.offset as int)
    } else if sp.offset + sp.length >= p {
        Some(sp.offset + sp.length)
    } else {
        None
    }
}

/// The smaller of two optional positions.
pub open spec fn opt_min(a: Option<int>, b: Option<int>) -> Option<int> {
    match (a, b) {
        (Option::None, _) => b,
        (_, Option::None) => a,
        (Option::Some(x), Option::Some(y)) => if x <= y {
            Option::Some(x)
        } else {
            Option::Some(y)
        },
    }
}

/// The smallest boundary position among the spans that is at least `p`.
pub open spec fn min_anchor_ge(spans: Seq<TextSpan>, p: int) -> Option<int>
    decreases spans.len(),
{
    if spans.len() == 0 {
        None
    } else {
        opt_min(min_anchor_ge(spans.drop_last(), p), span_min_anchor_ge(spans.last(), p))
    }
}

pub(crate) proof fn lemma_min_anchor_in_range(spans: Seq<TextSpan>, p: int)
    ensures
        min_anchor_ge(spans, p) matches Some(q) ==> p <= q <= max_anchor(spans),
    decreases spans.len(),
{
    if spans.len() > 0 {
        lemma_min_anchor_in_range(spans.drop_last(), p);
    }
}

/// The tags anchored at or past position `p`, in ascending position order,
/// later-registered spans first at equal positions.
pub open spec fn tail_events(spans: Seq<TextSpan>, p: int) -> Seq<char>
    decreases max_anchor(spans) + 2 - p,
    via tail_events_decreases
{
    match min_anchor_ge(spans, p) {
        None => Seq::empty(),
        Some(q) => events_at(spans, q) + tail_events(spans, q + 1),
    }
}

#[via_fn]
proof fn tail_events_decreases(spans: Seq<TextSpan>, p: int) {
    lemma_min_anchor_in_range(spans, p);
}

/// The scan from code-unit position `i` on: at each position the tags
/// anchored there, then the character; after the text, the remaining tags.
pub open spec fn scan_from(units: Seq<u16>, spans: Seq<TextSpan>, i: int) -> Seq<char>
    decreases units.len() - i,
{
    if 0 <= i < units.len() {
        events_at(spans, i) + seq![unit_char(units[i])] + scan_from(units, spans, i + 1)
    } else {
        tail_events(spans, i)
    }
}

/// What `render` returns: the input text verbatim when no span has tags,
/// otherwise the scan over the text's UTF-16 code units.
pub open spec fn render_spec(text: Seq<char>, spans: Seq<TextSpan>) -> Seq<char> {
    if !any_tagged(spans) {
        text
    } else {
        scan_from(utf16_units(text), spans, 0)
    }
}

pub(crate) proof fn lemma_events_at_concat(a: Seq<TextSpan>, b: Seq<TextSpan>, p: int)
    ensures
        events_at(a + b, p) == events_at(b, p) + events_at(a, p),
    decreases b.len(),
{
    if b.len() == 0 {
        assert(a + b =~= a);
        assert(events_at(b, p) + events_at(a, p) =~= events_at(a, p));
    } else {
        assert((a + b).drop_last() =~= a + b.drop_last());
        assert((a + b).last() == b.last());
        lemma_events_at_concat(a, b.drop_last(), p);
        assert(span_events_at(b.last(), p) + (events_at(b.drop_last(), p) + events_at(a, p))
            =~= (span_events_at(b.last(), p) + events_at(b.drop_last(), p)) + events_at(a, p));
    }
}

proof fn lemma_events_at_skip(s: Seq<TextSpan>, p: int, j: int)
    requires
        0 <= j < s.len(),
    ensures
        events_at(s.skip(j), p) == events_at(s.skip(j + 1), p) + span_events_at(s[j], p),
{
    assert(s.skip(j) =~= seq![s[j]] + s.skip(j + 1));
    lemma_events_at_concat(seq![s[j]], s.skip(j + 1), p);
    assert(seq![s[j]].drop_last() =~= Seq::<TextSpan>::empty());
    assert(seq![s[j]].last() == s[j]);
    assert(events_at(Seq::<TextSpan>::empty(), p) == Seq::<char>::empty());
    assert(events_at(seq![s[j]], p) =~= span_events_at(s[j], p));
    assert(events_at(s.skip(j), p) =~= events_at(s.skip(j + 1), p) + span_events_at(s[j], p));
}

/// Append every tag anchored at position `p`, later spans first.
fn push_events_at(out: &mut String, spans: &Vec<TextSpan>, p: u64)
    ensures
        final(out)@ == old(out)@ + events_at(spans@, p as int),
{
    let ghost pre = out@;
    let mut j = spans.len();
    proof {
        assert(spans@.skip(spans@.len() as int) =~= Seq::<TextSpan>::empty());
        assert(pre + Seq::<char>::empty() =~= pre);
    }
    while j > 0
        invariant
            j <= spans@.len(),
            out@ == pre + events_at(spans@.skip(j as int), p as int),
        decreases j,
    {
        j = j - 1;
        let sp = &spans[j];
        if style_has_tags(&sp.style) {
            let e: u64 = sp.offset as u64 + sp.length as u64;
            if e == p {
                push_close_tag(out, &sp.style);
            }
            if sp.offset as u64 == p {
                push_open_tag(out, &sp.style);
            }
        }
        proof {
            lemma_events_at_skip(spans@, p as int, j as int);
            assert(out@ =~= pre + events_at(spans@.skip(j as int), p as int));
        }
    }
    proof {
        assert(spans@.skip(0) =~= spans@);
    }
}

/// The smallest boundary position at or past `p`, or `None` when all spans
/// end before `p`.
fn next_anchor(spans: &Vec<TextSpan>, p: u64) -> (r: Option<u64>)
    ensures
        r is None ==> min_anchor_ge(spans@, p as int) is None,
        r matches Some(q) ==> min_anchor_ge(spans@, p as int) == Some(q as int) && q
            <= 0x1_FFFF_FFFE,
{
    let mut best: Option<u64> = None;
    let mut j: usize = 0;
    proof {
        assert(spans@.take(0) =~= Seq::<TextSpan>::empty());
    }
    while j < spans.len()
        invariant
            j <= spans@.len(),
            best is None ==> min_anchor_ge(spans@.take(j as int), p as int) is None,
            best matches Some(q) ==> min_anchor_ge(spans@.take(j as int), p as int) == Some(
                q as int,
            ) && q <= 0x1_FFFF_FFFE,
        decreases spans@.len() - j,
    {
        let sp = &spans[j];
        let e: u64 = sp.offset as u64 + sp.length as u64;
        let cand: Option<u64> = if !style_has_tags(&sp.style) {
            None
        } else if sp.offset as u64 >= p {
            Some(sp.offset as u64)
        } else if e >= p {
            Some(e)
        } else {
            None
        };
        best = match (best, cand) {
            (None, c) => c,
            (b, None) => b,
            (Some(x), Some(y)) => if x <= y {
                Some(x)
            } else {
                Some(y)
            },
        };
        proof {
            assert(spans@.take(j + 1).drop_last() =~= spans@.take(j as int));
            assert(spans@.take(j + 1).last() == spans@[j as int]);
        }
        j = j + 1;
    }
    proof {
        assert(spans@.take(spans@.len() as int) =~= spans@);
    }
    best
}

/// Render the text with its style spans into one markup string.
///
/// With no tagged span the input comes back verbatim.  Otherwise the text is
/// scanned as UTF-16 code units: at every position the close and open tags
/// anchored there are emitted before the character, later-listed spans
/// first; tags anchored past the end of the text follow it in ascending
/// position order; a lone surrogate half becomes a space.
pub fn render(text: &str, spans: &Vec<TextSpan>) -> (r: String)
    ensures
        r@ == render_spec(text@, spans@),
{
    let mut tagged = false;
    let mut j: usize = 0;
    while j < spans.len()
        invariant
            j <= spans@.len(),
            tagged == exists|k: int| 0 <= k < j && #[trigger] has_tags(spans@[k].style),
        decreases spans@.len() - j,
    {
        if style_has_tags(&spans[j].style) {
            tagged = true;
            proof {
                assert(has_tags(spans@[j as int].style));
            }
        }
        j = j + 1;
    }
    if !tagged {
        return text.to_owned();
    }
    let units = utf16_encode(text);
    let ghost useq = units@;
    let mut out = String::new();
    let mut i: usize = 0;
    while i < units.len()
        invariant
            0 <= i <= units@.len(),
            units@ == useq,
            useq == utf16_units(text@),
            any_tagged(spans@),
            scan_from(useq, spans@, 0) == out@ + scan_from(useq, spans@, i as int),
        decreases units@.len() - i,
    {
        let ghost out0 = out@;
        push_events_at(&mut out, spans, i as u64);
        push_unit_char(&mut out, units[i]);
        proof {
            assert(out@ =~= out0 + (events_at(spans@, i as int) + seq![
                unit_char(useq[i as int]),
            ]));
            assert(scan_from(useq, spans@, 0) =~= out@ + scan_from(useq, spans@, i + 1));
        }
        i = i + 1;
    }
    let mut cur: u64 = units.len() as u64;
    loop
        invariant
            cur >= useq.len(),
            scan_from(useq, spans@, 0) == out@ + tail_events(spans@, cur as int),
        ensures
            out@ == scan_from(useq, spans@, 0),
        decreases max_anchor(spans@) + 2 - cur,
    {
        match next_anchor(spans, cur) {
            None => {
                proof {
                    assert(tail_events(spans@, cur as int) =~= Seq::<char>::empty());
                    assert(out@ + Seq::<char>::empty() =~= out@);
                }
                break ;
            },
            Some(q) => {
                let ghost out0 = out@;
                push_events_at(&mut out, spans, q);
                proof {
                    lemma_min_anchor_in_range(spans@, cur as int);
                    assert(scan_from(useq, spans@, 0) =~= out@ + tail_events(spans@, q + 1));
                }
                cur = q + 1;
            },
        }
    }
    out
}

} // verus!
