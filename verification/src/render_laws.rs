//! Proved laws of the renderer: what `render_spec` gives for no spans, for a
//! single span, for two spans in either order, and for spans whose style has
//! no tags.

use vstd::prelude::*;

use crate::render::any_tagged;
use crate::render::close_tag;
use crate::render::events_at;
use crate::render::has_tags;
use crate::render::min_anchor_ge;
use crate::render::open_tag;
use crate::render::opt_min;
use crate::render::render_spec;
use crate::render::scan_from;
use crate::render::span_events_at;
use crate::render::span_min_anchor_ge;
use crate::render::tail_events;
use crate::render::unit_chars;
use crate::render::utf16_units;
use crate::render::TextSpan;

verus! {

/// With no spans the renderer returns the text unchanged.
pub proof fn lemma_render_no_spans(text: Seq<char>, spans: Seq<TextSpan>)
    requires
        spans.len() == 0,
    ensures
        render_spec(text, spans) == text,
{
}

/// Rendering is a pure function of the text and the span list: equal inputs
/// give equal output.
pub proof fn lemma_render_deterministic(
    text1: Seq<char>,
    spans1: Seq<TextSpan>,
    text2: Seq<char>,
    spans2: Seq<TextSpan>,
)
    requires
        text1 == text2,
        spans1 == spans2,
    ensures
        render_spec(text1, spans1) == render_spec(text2, spans2),
{
}

proof fn lemma_events_single(sp: TextSpan, p: int)
    ensures
        events_at(seq![sp], p) == span_events_at(sp, p),
{
    assert(seq![sp].drop_last() =~= Seq::<TextSpan>::empty());
    assert(seq![sp].last() == sp);
    assert(events_at(Seq::<TextSpan>::empty(), p) == Seq::<char>::empty());
    assert(span_events_at(sp, p) + Seq::<char>::empty() =~= span_events_at(sp, p));
}

proof fn lemma_events_pair(a: TextSpan, b: TextSpan, p: int)
    ensures
        events_at(seq![a, b], p) == span_events_at(b, p) + span_events_at(a, p),
{
    assert(seq![a, b].drop_last() =~= seq![a]);
    assert(seq![a, b].last() == b);
    lemma_events_single(a, p);
}

proof fn lemma_min_anchor_single(sp: TextSpan, p: int)
    ensures
        min_anchor_ge(seq![sp], p) == span_min_anchor_ge(sp, p),
{
    assert(seq![sp].drop_last() =~= Seq::<TextSpan>::empty());
    assert(seq![sp].last() == sp);
    assert(min_anchor_ge(Seq::<TextSpan>::empty(), p) is None);
}

proof fn lemma_min_anchor_pair(a: TextSpan, b: TextSpan, p: int)
    ensures
        min_anchor_ge(seq![a, b], p) == opt_min(
            span_min_anchor_ge(a, p),
            span_min_anchor_ge(b, p),
        ),
{
    assert(seq![a, b].drop_last() =~= seq![a]);
    assert(seq![a, b].last() == b);
    lemma_min_anchor_single(a, p);
}

proof fn lemma_scan_plain(units: Seq<u16>, spans: Seq<TextSpan>, i: int, j: int)
    requires
        0 <= i <= j <= units.len(),
        forall|k: int| i <= k < j ==> #[trigger] events_at(spans, k) == Seq::<char>::empty(),
    ensures
        scan_from(units, spans, i) == unit_chars(units).subrange(i, j) + scan_from(
            units,
            spans,
            j,
        ),
    decreases j - i,
{
    if i == j {
        assert(unit_chars(units).subrange(i, j) =~= Seq::<char>::empty());
        assert(Seq::<char>::empty() + scan_from(units, spans, j) =~= scan_from(units, spans, j));
    } else {
        lemma_scan_plain(units, spans, i + 1, j);
        assert(events_at(spans, i) == Seq::<char>::empty());
        assert(unit_chars(units).subrange(i, j) =~= seq![unit_chars(units)[i]]
            + unit_chars(units).subrange(i + 1, j));
        assert(scan_from(units, spans, i) =~= unit_chars(units).subrange(i, j) + scan_from(
            units,
            spans,
            j,
        ));
    }
}

/// The output a single span is expected to produce: the rendered characters
/// with the open tag at `offset` and the close tag at `offset + length`.
pub open spec fn single_span_shape(text: Seq<char>, sp: TextSpan) -> Seq<char> {
    let m = unit_chars(utf16_units(text));
    let o = sp.offset as int;
    let e = sp.offset + sp.length;
    m.subrange(0, o) + open_tag(sp.style) + m.subrange(o, e) + close_tag(sp.style) + m.subrange(
        e,
        m.len() as int,
    )
}

/// One tagged span lying inside the text renders as the text with the open
/// tag at `offset` and the close tag at `offset + length`, everything else
/// unchanged.
pub proof fn lemma_render_single_span(text: Seq<char>, sp: TextSpan)
    requires
        has_tags(sp.style),
        1 <= sp.length,
        sp.offset + sp.length <= utf16_units(text).len(),
    ensures
        render_spec(text, seq![sp]) == single_span_shape(text, sp),
{
    let u = utf16_units(text);
    let m = unit_chars(u);
    let o = sp.offset as int;
    let e = o + sp.length;
    let spans = seq![sp];
    assert(has_tags(spans[0].style));
    assert(any_tagged(spans));
    assert forall|k: int| 0 <= k < u.len() && k != o && k != e implies #[trigger] events_at(
        spans,
        k,
    ) == Seq::<char>::empty() by {
        lemma_events_single(sp, k);
        assert(Seq::<char>::empty() + Seq::<char>::empty() =~= Seq::<char>::empty());
    }
    lemma_events_single(sp, o);
    assert(events_at(spans, o) =~= open_tag(sp.style));
    lemma_scan_plain(u, spans, 0, o);
    lemma_scan_plain(u, spans, o + 1, e);
    assert(scan_from(u, spans, o) == events_at(spans, o) + seq![m[o]] + scan_from(u, spans, o + 1));
    if e < u.len() {
        lemma_events_single(sp, e);
        assert(events_at(spans, e) =~= close_tag(sp.style));
        lemma_scan_plain(u, spans, e + 1, u.len() as int);
        assert(scan_from(u, spans, e) == events_at(spans, e) + seq![m[e]] + scan_from(
            u,
            spans,
            e + 1,
        ));
        lemma_min_anchor_single(sp, u.len() as int);
        assert(min_anchor_ge(spans, u.len() as int) is None);
        assert(scan_from(u, spans, u.len() as int) == tail_events(spans, u.len() as int));
        assert(tail_events(spans, u.len() as int) == Seq::<char>::empty());
        assert(m.subrange(o, e) =~= seq![m[o]] + m.subrange(o + 1, e));
        assert(m.subrange(e, m.len() as int) =~= seq![m[e]] + m.subrange(e + 1, m.len() as int));
        assert(scan_from(u, spans, 0) =~= single_span_shape(text, sp));
    } else {
        lemma_events_single(sp, e);
        assert(events_at(spans, e) =~= close_tag(sp.style));
        lemma_min_anchor_single(sp, e);
        assert(min_anchor_ge(spans, e) == Some(e));
        lemma_min_anchor_single(sp, e + 1);
        assert(min_anchor_ge(spans, e + 1) is None);
        assert(tail_events(spans, e + 1) == Seq::<char>::empty());
        assert(scan_from(u, spans, e) == tail_events(spans, e));
        assert(tail_events(spans, e) == events_at(spans, e) + tail_events(spans, e + 1));
        assert(m.subrange(o, e) =~= seq![m[o]] + m.subrange(o + 1, e));
        assert(m.subrange(e, m.len() as int) =~= Seq::<char>::empty());
        assert(scan_from(u, spans, 0) =~= single_span_shape(text, sp));
    }
}

/// The output two disjoint spans are expected to produce: each pair of tags
/// at its own span's boundaries, everything else unchanged.
pub open spec fn two_span_shape(text: Seq<char>, a: TextSpan, b: TextSpan) -> Seq<char> {
    let m = unit_chars(utf16_units(text));
    let o1 = a.offset as int;
    let e1 = a.offset + a.length;
    let o2 = b.offset as int;
    let e2 = b.offset + b.length;
    m.subrange(0, o1) + open_tag(a.style) + m.subrange(o1, e1) + close_tag(a.style) + m.subrange(
        e1,
        o2,
    ) + open_tag(b.style) + m.subrange(o2, e2) + close_tag(b.style) + m.subrange(
        e2,
        m.len() as int,
    )
}

spec fn two_span_events(a: TextSpan, b: TextSpan, k: int) -> Seq<char> {
    if k == a.offset {
        open_tag(a.style)
    } else if k == a.offset + a.length {
        close_tag(a.style)
    } else if k == b.offset {
        open_tag(b.style)
    } else if k == b.offset + b.length {
        close_tag(b.style)
    } else {
        Seq::empty()
    }
}

proof fn lemma_two_events_at(a: TextSpan, b: TextSpan, spans: Seq<TextSpan>, k: int)
    requires
        spans == seq![a, b] || spans == seq![b, a],
        1 <= a.length,
        1 <= b.length,
        a.offset + a.length < b.offset,
    ensures
        events_at(spans, k) == two_span_events(a, b, k),
{
    if spans == seq![a, b] {
        lemma_events_pair(a, b, k);
    } else {
        lemma_events_pair(b, a, k);
    }
    assert(events_at(spans, k) =~= two_span_events(a, b, k));
}

#[verifier::spinoff_prover]
#[verifier::rlimit(100)]
proof fn lemma_two_span_front(text: Seq<char>, spans: Seq<TextSpan>, a: TextSpan, b: TextSpan)
    requires
        spans == seq![a, b] || spans == seq![b, a],
        1 <= a.length,
        1 <= b.length,
        a.offset + a.length < b.offset,
        b.offset + b.length <= utf16_units(text).len(),
    ensures
        scan_from(utf16_units(text), spans, 0) == unit_chars(utf16_units(text)).subrange(
            0,
            a.offset as int,
        ) + open_tag(a.style) + unit_chars(utf16_units(text)).subrange(
            a.offset as int,
            a.offset + a.length,
        ) + close_tag(a.style) + unit_chars(utf16_units(text)).subrange(
            a.offset + a.length,
            b.offset as int,
        ) + open_tag(b.style) + unit_chars(utf16_units(text)).subrange(
            b.offset as int,
            b.offset + b.length,
        ) + scan_from(utf16_units(text), spans, b.offset + b.length),
{
    let u = utf16_units(text);
    let m = unit_chars(u);
    let o1 = a.offset as int;
    let e1 = o1 + a.length;
    let o2 = b.offset as int;
    let e2 = o2 + b.length;
    assert forall|k: int| #[trigger] events_at(spans, k) == two_span_events(a, b, k) by {
        lemma_two_events_at(a, b, spans, k);
    }
    lemma_scan_plain(u, spans, o2 + 1, e2);
    assert(scan_from(u, spans, o2) =~= open_tag(b.style) + (m.subrange(o2, e2) + scan_from(
        u,
        spans,
        e2,
    ))) by {
        assert(m.subrange(o2, e2) =~= seq![m[o2]] + m.subrange(o2 + 1, e2));
    }
    lemma_scan_plain(u, spans, e1 + 1, o2);
    assert(scan_from(u, spans, e1) =~= close_tag(a.style) + (m.subrange(e1, o2) + (open_tag(
        b.style,
    ) + (m.subrange(o2, e2) + scan_from(u, spans, e2))))) by {
        assert(m.subrange(e1, o2) =~= seq![m[e1]] + m.subrange(e1 + 1, o2));
    }
    lemma_scan_plain(u, spans, o1 + 1, e1);
    assert(scan_from(u, spans, o1) =~= open_tag(a.style) + (m.subrange(o1, e1) + (close_tag(
        a.style,
    ) + (m.subrange(e1, o2) + (open_tag(b.style) + (m.subrange(o2, e2) + scan_from(
        u,
        spans,
        e2,
    ))))))) by {
        assert(m.subrange(o1, e1) =~= seq![m[o1]] + m.subrange(o1 + 1, e1));
    }
    lemma_scan_plain(u, spans, 0, o1);
    assert(scan_from(u, spans, 0) =~= m.subrange(0, o1) + (open_tag(a.style) + (m.subrange(
        o1,
        e1,
    ) + (close_tag(a.style) + (m.subrange(e1, o2) + (open_tag(b.style) + (m.subrange(
        o2,
        e2,
    ) + scan_from(u, spans, e2))))))));
    lemma_concat_flatten(
        m.subrange(0, o1),
        open_tag(a.style),
        m.subrange(o1, e1),
        close_tag(a.style),
        m.subrange(e1, o2),
        open_tag(b.style),
        m.subrange(o2, e2),
        scan_from(u, spans, e2),
    );
}

proof fn lemma_concat_flatten(
    s1: Seq<char>,
    s2: Seq<char>,
    s3: Seq<char>,
    s4: Seq<char>,
    s5: Seq<char>,
    s6: Seq<char>,
    s7: Seq<char>,
    s8: Seq<char>,
)
    ensures
        s1 + (s2 + (s3 + (s4 + (s5 + (s6 + (s7 + s8)))))) == s1 + s2 + s3 + s4 + s5 + s6 + s7
            + s8,
{
    assert(s1 + (s2 + (s3 + (s4 + (s5 + (s6 + (s7 + s8)))))) =~= s1 + s2 + s3 + s4 + s5 + s6 + s7
        + s8);
}

#[verifier::spinoff_prover]
#[verifier::rlimit(100)]
proof fn lemma_render_two_spans_one(text: Seq<char>, spans: Seq<TextSpan>, a: TextSpan, b: TextSpan)
    requires
        spans == seq![a, b] || spans == seq![b, a],
        has_tags(a.style),
        has_tags(b.style),
        1 <= a.length,
        1 <= b.length,
        a.offset + a.length < b.offset,
        b.offset + b.length <= utf16_units(text).len(),
    ensures
        render_spec(text, spans) == two_span_shape(text, a, b),
{
    let u = utf16_units(text);
    let m = unit_chars(u);
    let o1 = a.offset as int;
    let e1 = o1 + a.length;
    let o2 = b.offset as int;
    let e2 = o2 + b.length;
    if spans == seq![a, b] {
        assert(spans[0] == a && spans[1] == b);
    } else {
        assert(spans[0] == b && spans[1] == a);
    }
    assert(any_tagged(spans)) by {
        assert(has_tags(spans[0].style));
    }
    assert forall|k: int| #[trigger] events_at(spans, k) == two_span_events(a, b, k) by {
        lemma_two_events_at(a, b, spans, k);
    }
    lemma_two_span_front(text, spans, a, b);
    if e2 < u.len() {
        lemma_scan_plain(u, spans, e2 + 1, u.len() as int);
        assert(min_anchor_ge(spans, u.len() as int) is None) by {
            if spans == seq![a, b] {
                lemma_min_anchor_pair(a, b, u.len() as int);
            } else {
                lemma_min_anchor_pair(b, a, u.len() as int);
            }
        }
        assert(tail_events(spans, u.len() as int) == Seq::<char>::empty());
        assert(scan_from(u, spans, e2) =~= close_tag(b.style) + m.subrange(e2, m.len() as int))
            by {
            assert(m.subrange(e2, m.len() as int) =~= seq![m[e2]] + m.subrange(
                e2 + 1,
                m.len() as int,
            ));
            assert(m.subrange(e2 + 1, m.len() as int) + Seq::<char>::empty() =~= m.subrange(
                e2 + 1,
                m.len() as int,
            ));
        }
        assert(scan_from(u, spans, 0) =~= two_span_shape(text, a, b));
    } else {
        assert(min_anchor_ge(spans, e2) == Some(e2)) by {
            if spans == seq![a, b] {
                lemma_min_anchor_pair(a, b, e2);
            } else {
                lemma_min_anchor_pair(b, a, e2);
            }
        }
        assert(min_anchor_ge(spans, e2 + 1) is None) by {
            if spans == seq![a, b] {
                lemma_min_anchor_pair(a, b, e2 + 1);
            } else {
                lemma_min_anchor_pair(b, a, e2 + 1);
            }
        }
        assert(scan_from(u, spans, e2) == tail_events(spans, e2));
        assert(tail_events(spans, e2) == events_at(spans, e2) + tail_events(spans, e2 + 1));
        assert(tail_events(spans, e2 + 1) == Seq::<char>::empty());
        assert(scan_from(u, spans, e2) =~= close_tag(b.style) + m.subrange(e2, m.len() as int))
            by {
            assert(m.subrange(e2, m.len() as int) =~= Seq::<char>::empty());
            assert(close_tag(b.style) + Seq::<char>::empty() =~= close_tag(b.style));
        }
        assert(scan_from(u, spans, 0) =~= two_span_shape(text, a, b));
    }
}

/// Two tagged spans, the first ending strictly before the second starts,
/// render with each span's tags exactly once at that span's own boundaries —
/// whichever order the two stand in the span list.
pub proof fn lemma_render_two_spans(text: Seq<char>, a: TextSpan, b: TextSpan)
    requires
        has_tags(a.style),
        has_tags(b.style),
        1 <= a.length,
        1 <= b.length,
        a.offset + a.length < b.offset,
        b.offset + b.length <= utf16_units(text).len(),
    ensures
        render_spec(text, seq![a, b]) == two_span_shape(text, a, b),
        render_spec(text, seq![b, a]) == two_span_shape(text, a, b),
{
    lemma_render_two_spans_one(text, seq![a, b], a, b);
    lemma_render_two_spans_one(text, seq![b, a], a, b);
}

/// The literal reading of the single-span law for text in the basic plane:
/// the open tag at `offset` and the close tag at `offset + length`, inside
/// the unchanged text itself.
pub proof fn lemma_render_single_span_plain(text: Seq<char>, sp: TextSpan)
    requires
        bmp_only(text),
        has_tags(sp.style),
        1 <= sp.length,
        sp.offset + sp.length <= text.len(),
    ensures
        render_spec(text, seq![sp]) == text.subrange(0, sp.offset as int) + open_tag(sp.style)
            + text.subrange(sp.offset as int, sp.offset + sp.length) + close_tag(sp.style)
            + text.subrange(sp.offset + sp.length, text.len() as int),
{
    lemma_utf16_units_bmp(text);
    lemma_unit_chars_bmp(text);
    lemma_render_single_span(text, sp);
}

proof fn lemma_min_anchor_concat(a: Seq<TextSpan>, b: Seq<TextSpan>, p: int)
    ensures
        min_anchor_ge(a + b, p) == opt_min(min_anchor_ge(a, p), min_anchor_ge(b, p)),
    decreases b.len(),
{
    if b.len() == 0 {
        assert(a + b =~= a);
    } else {
        assert((a + b).drop_last() =~= a + b.drop_last());
        assert((a + b).last() == b.last());
        lemma_min_anchor_concat(a, b.drop_last(), p);
    }
}

proof fn lemma_events_remove_untagged(spans: Seq<TextSpan>, k: int, p: int)
    requires
        0 <= k < spans.len(),
        !has_tags(spans[k].style),
    ensures
        events_at(spans.remove(k), p) == events_at(spans, p),
{
    assert(spans =~= (spans.take(k) + seq![spans[k]]) + spans.skip(k + 1));
    crate::render::lemma_events_at_concat(spans.take(k) + seq![spans[k]], spans.skip(k + 1), p);
    crate::render::lemma_events_at_concat(spans.take(k), seq![spans[k]], p);
    lemma_events_single(spans[k], p);
    assert(spans.remove(k) =~= spans.take(k) + spans.skip(k + 1));
    crate::render::lemma_events_at_concat(spans.take(k), spans.skip(k + 1), p);
    assert(events_at(spans.remove(k), p) =~= events_at(spans, p));
}

proof fn lemma_min_anchor_remove_untagged(spans: Seq<TextSpan>, k: int, p: int)
    requires
        0 <= k < spans.len(),
        !has_tags(spans[k].style),
    ensures
        min_anchor_ge(spans.remove(k), p) == min_anchor_ge(spans, p),
{
    assert(spans =~= (spans.take(k) + seq![spans[k]]) + spans.skip(k + 1));
    lemma_min_anchor_concat(spans.take(k) + seq![spans[k]], spans.skip(k + 1), p);
    lemma_min_anchor_concat(spans.take(k), seq![spans[k]], p);
    lemma_min_anchor_single(spans[k], p);
    assert(min_anchor_ge(seq![spans[k]], p) is None);
    assert(spans.remove(k) =~= spans.take(k) + spans.skip(k + 1));
    lemma_min_anchor_concat(spans.take(k), spans.skip(k + 1), p);
}

proof fn lemma_tail_remove_untagged(spans: Seq<TextSpan>, k: int, p: int)
    requires
        0 <= k < spans.len(),
        !has_tags(spans[k].style),
    ensures
        tail_events(spans.remove(k), p) == tail_events(spans, p),
    decreases crate::render::max_anchor(spans) + 2 - p,
{
    lemma_min_anchor_remove_untagged(spans, k, p);
    crate::render::lemma_min_anchor_in_range(spans, p);
    match min_anchor_ge(spans, p) {
        Option::None => {
        },
        Option::Some(q) => {
            lemma_events_remove_untagged(spans, k, q);
            lemma_tail_remove_untagged(spans, k, q + 1);
        },
    }
}

proof fn lemma_any_tagged_remove_untagged(spans: Seq<TextSpan>, k: int)
    requires
        0 <= k < spans.len(),
        !has_tags(spans[k].style),
    ensures
        any_tagged(spans.remove(k)) == any_tagged(spans),
{
    spans.remove_ensures(k);
    let r = spans.remove(k);
    if any_tagged(spans) {
        let j = choose|j: int| 0 <= j < spans.len() && #[trigger] has_tags(spans[j].style);
        if j < k {
            assert(has_tags(r[j].style));
        } else {
            assert(has_tags(r[j - 1].style));
        }
    }
    if any_tagged(r) {
        let j = choose|j: int| 0 <= j < r.len() && #[trigger] has_tags(r[j].style);
        if j < k {
            assert(has_tags(spans[j].style));
        } else {
            assert(has_tags(spans[j + 1].style));
        }
    }
}

proof fn lemma_scan_remove_untagged(units: Seq<u16>, spans: Seq<TextSpan>, k: int, i: int)
    requires
        0 <= k < spans.len(),
        !has_tags(spans[k].style),
        0 <= i,
    ensures
        scan_from(units, spans.remove(k), i) == scan_from(units, spans, i),
    decreases units.len() - i,
{
    if i < units.len() {
        lemma_events_remove_untagged(spans, k, i);
        lemma_scan_remove_untagged(units, spans, k, i + 1);
    } else {
        lemma_tail_remove_untagged(spans, k, i);
    }
}

/// A span whose style has no entry in the tag table is a no-op: removing it
/// from the span list never changes the rendered output.
pub proof fn lemma_untagged_span_noop(text: Seq<char>, spans: Seq<TextSpan>, k: int)
    requires
        0 <= k < spans.len(),
        !has_tags(spans[k].style),
    ensures
        render_spec(text, spans.remove(k)) == render_spec(text, spans),
{
    lemma_any_tagged_remove_untagged(spans, k);
    if any_tagged(spans) {
        lemma_scan_remove_untagged(utf16_units(text), spans, k, 0);
    }
}

/// Whether every character of the text lies in the basic multilingual plane.
pub open spec fn bmp_only(text: Seq<char>) -> bool {
    forall|k: int| 0 <= k < text.len() ==> (((#[trigger] text[k]) as u32) < 0x10000)
}

proof fn lemma_utf16_units_bmp(text: Seq<char>)
    requires
        bmp_only(text),
    ensures
        utf16_units(text).len() == text.len(),
        forall|k: int|
            0 <= k < text.len() ==> #[trigger] utf16_units(text)[k] == (text[k] as u32) as u16,
    decreases text.len(),
{
    if text.len() > 0 {
        let d = text.drop_last();
        assert(forall|k: int| 0 <= k < d.len() ==> d[k] == text[k]);
        assert(bmp_only(d));
        lemma_utf16_units_bmp(d);
        assert(text.last() == text[text.len() - 1]);
    }
}

/// For text lying entirely in the basic plane (no character at or above
/// 0x10000) the rendered characters are the text itself: encoding to UTF-16
/// and reading each unit back changes nothing.
pub proof fn lemma_unit_chars_bmp(text: Seq<char>)
    requires
        bmp_only(text),
    ensures
        unit_chars(utf16_units(text)) == text,
{
    lemma_utf16_units_bmp(text);
    assert forall|k: int| 0 <= k < text.len() implies unit_chars(utf16_units(text))[k] == text[k] by {
        let c = text[k];
        let u = utf16_units(text)[k];
        vstd::utf8::char_is_scalar(c);
        assert(u as u32 == c as u32);
        vstd::utf8::char_u32_cast(c, u as u32);
    }
    assert(unit_chars(utf16_units(text)) =~= text);
}

} // verus!
