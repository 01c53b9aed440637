//! Rendering a structured message as styled text: the name segment with
//! its display color, the separator, and the content with emote ranges
//! underlined. The content walk sorts the ranges by start offset first, so
//! the output does not depend on their arrival order.
use vstd::prelude::*;

use crate::message::{CharRange, Emote, EmoteView, MessageView, TwitchColor, TwitchMessage};
use crate::text::eq_ignore_case;
use vstd::multiset::Multiset;

verus! {

// ---------- styles ----------

/// A foreground color for painted text: one of the named terminal colors
/// the library uses, or an RGB value.
#[derive(Clone, Copy, Debug, PartialEq, Eq, Structural)]
pub enum PaintColor {
    Green,
    Blue,
    Rgb(TwitchColor),
}

/// An immutable style descriptor: an optional foreground color and the
/// italic and underline axes, which compose rather than replace each
/// other.
#[derive(Clone, Copy, Debug, PartialEq, Eq, Structural)]
pub struct TextStyle {
    pub color: Option<PaintColor>,
    pub italic: bool,
    pub underline: bool,
}

/// A plain encoding of a foreground color: a tag byte telling the variants
/// apart, then the three RGB components.
pub open spec fn style_key(c: Option<PaintColor>) -> (u8, u8, u8, u8) {
    match c {
        None => (0u8, 0u8, 0u8, 0u8),
        Some(PaintColor::Green) => (1u8, 0u8, 0u8, 0u8),
        Some(PaintColor::Blue) => (2u8, 0u8, 0u8, 0u8),
        Some(PaintColor::Rgb(rgb)) => (3u8, rgb.0, rgb.1, rgb.2),
    }
}

/// The text a terminal-styling pass produces for one segment: a function
/// of the segment's text and style alone.
pub uninterp spec fn painted(text: Seq<char>, fg: (u8, u8, u8, u8), italic: bool, underline: bool) -> Seq<char>;

/// The styled rendering of one segment: a fully plain style leaves the
/// text untouched, any other style wraps it in the escape codes that
/// [`painted`] names.
pub open spec fn styled_text(
    text: Seq<char>,
    color: Option<PaintColor>,
    italic: bool,
    underline: bool,
) -> Seq<char> {
    if color is None && !italic && !underline {
        text
    } else {
        painted(text, style_key(color), italic, underline)
    }
}

/// Relies on ansi_term's `Style::paint` and the `Display` of the painted
/// string: the output depends on the text and style alone, and a style
/// with no color, italic or underline writes no escape codes at all, so
/// the output is the text itself.
#[verifier::external_body]
fn paint(text: &str, style: TextStyle) -> (r: String)
    ensures
        r@ == painted(text@, style_key(style.color), style.italic, style.underline),
        (style.color is None && !style.italic && !style.underline) ==> r@ == text@,
{
    let mut st = ansi_term::Style::new();
    if style.italic {
        st = st.italic();
    }
    if style.underline {
        st = st.underline();
    }
    st.foreground = match style.color {
        None => None,
        Some(PaintColor::Green) => Some(ansi_term::Color::Green),
        Some(PaintColor::Blue) => Some(ansi_term::Color::Blue),
        Some(PaintColor::Rgb(c)) => Some(ansi_term::Color::RGB(c.0, c.1, c.2)),
    };
    st.paint(text).to_string()
}

/// Paints one segment, with the plain case folded into [`styled_text`].
pub fn paint_styled(text: &str, style: TextStyle) -> (r: String)
    ensures
        r@ == styled_text(text@, style.color, style.italic, style.underline),
{
    paint(text, style)
}

// ---------- sorting ranges ----------

/// Inserts a range into a start-sorted list, after every entry whose start
/// is not greater: the insertion point of a stable sort.
pub open spec fn insert_by_start(r: CharRange, s: Seq<CharRange>) -> Seq<CharRange>
    decreases s.len(),
{
    if s.len() == 0 {
        seq![r]
    } else if s[0].start <= r.start {
        seq![s[0]] + insert_by_start(r, s.drop_first())
    } else {
        seq![r] + s
    }
}

/// The list sorted by start offset, stably: entries with equal starts keep
/// their input order.
pub open spec fn sorted_by_start(s: Seq<CharRange>) -> Seq<CharRange>
    decreases s.len(),
{
    if s.len() == 0 {
        Seq::empty()
    } else {
        insert_by_start(s.last(), sorted_by_start(s.drop_last()))
    }
}

pub open spec fn is_sorted_by_start(s: Seq<CharRange>) -> bool {
    forall|i: int, j: int| 0 <= i < j < s.len() ==> s[i].start <= s[j].start
}

pub proof fn lemma_insert_by_start_ensures(r: CharRange, s: Seq<CharRange>)
    requires
        is_sorted_by_start(s),
    ensures
        is_sorted_by_start(insert_by_start(r, s)),
        insert_by_start(r, s).to_multiset() == s.to_multiset().insert(r),
        insert_by_start(r, s).len() == s.len() + 1,
    decreases s.len(),
{
    broadcast use vstd::seq_lib::group_to_multiset_ensures;

    if s.len() == 0 {
        assert(seq![r] =~= Seq::<CharRange>::empty().push(r));
        assert(seq![r].to_multiset() =~= s.to_multiset().insert(r));
    } else if s[0].start <= r.start {
        let t = s.drop_first();
        assert(forall|i: int, j: int| 0 <= i < j < t.len() ==> t[i].start <= t[j].start);
        lemma_insert_by_start_ensures(r, t);
        let ins = insert_by_start(r, t);
        let w = seq![s[0]] + ins;
        assert forall|i: int, j: int| 0 <= i < j < w.len() implies w[i].start <= w[j].start by {
            if i == 0 {
                // every element of `ins` is r or an element of t, both with
                // start at least s[0].start
                assert(ins.to_multiset().contains(w[j]));
                assert(ins.contains(w[j]));
                let k = choose|k: int| 0 <= k < ins.len() && ins[k] == w[j];
                if w[j] == r {
                    assert(s[0].start <= w[j].start);
                } else {
                    assert(t.to_multiset().insert(r).count(w[j]) > 0);
                    assert(t.to_multiset().count(w[j]) > 0);
                    assert(t.contains(w[j]));
                    let l = choose|l: int| 0 <= l < t.len() && t[l] == w[j];
                    assert(s[l + 1] == t[l]);
                    assert(s[0].start <= s[l + 1].start);
                }
            } else {
                assert(w[i] == ins[i - 1] && w[j] == ins[j - 1]);
            }
        }
        assert(w.to_multiset() =~= s.to_multiset().insert(r)) by {
            assert(w =~= ins.insert(0, s[0]));
            assert(ins.insert(0, s[0]).remove(0) =~= ins);
            assert(ins.insert(0, s[0])[0] == s[0]);
            assert(w.to_multiset().remove(s[0]) =~= ins.to_multiset());
            assert(w.to_multiset().contains(s[0])) by {
                assert(w[0] == s[0]);
                assert(w.contains(s[0]));
            }
            assert(s =~= t.insert(0, s[0]));
            assert(t.insert(0, s[0]).remove(0) =~= t);
            assert(s.to_multiset().remove(s[0]) =~= t.to_multiset());
            assert(s.to_multiset().contains(s[0])) by {
                assert(s.contains(s[0]));
            }
        }
    } else {
        let w = seq![r] + s;
        assert(forall|j: int| 0 < j < w.len() ==> w[j] == s[j - 1]);
        assert(forall|j: int| 0 < j < w.len() ==> r.start <= w[j].start);
        assert(w.to_multiset() =~= s.to_multiset().insert(r)) by {
            assert(w =~= s.insert(0, r));
            assert(s.insert(0, r).remove(0) =~= s);
            assert(w.to_multiset().remove(r) =~= s.to_multiset());
            assert(w.to_multiset().contains(r)) by {
                assert(w[0] == r);
                assert(w.contains(r));
            }
        }
    }
}

pub proof fn lemma_sorted_by_start_ensures(s: Seq<CharRange>)
    ensures
        is_sorted_by_start(sorted_by_start(s)),
        sorted_by_start(s).to_multiset() == s.to_multiset(),
        sorted_by_start(s).len() == s.len(),
    decreases s.len(),
{
    broadcast use vstd::seq_lib::group_to_multiset_ensures;

    if s.len() > 0 {
        let t = s.drop_last();
        lemma_sorted_by_start_ensures(t);
        lemma_insert_by_start_ensures(s.last(), sorted_by_start(t));
        assert(s =~= t.push(s.last()));
        assert(t.push(s.last()).to_multiset() =~= t.to_multiset().insert(s.last()));
    }
}

/// Finds the stable insertion point and places `x` there.
fn insert_sorted(out: &mut Vec<CharRange>, x: CharRange)
    requires
        is_sorted_by_start(old(out)@),
    ensures
        final(out)@ == insert_by_start(x, old(out)@),
        is_sorted_by_start(final(out)@),
{
    let n = out.len();
    let mut p: usize = 0;
    while p < n && out[p].start <= x.start
        invariant
            n == out@.len(),
            p <= n,
            forall|j: int| 0 <= j < p ==> out@[j].start <= x.start,
            is_sorted_by_start(out@),
        decreases n - p,
    {
        p += 1;
    }
    proof {
        lemma_insert_by_start_at(x, out@, p as int);
        lemma_insert_by_start_ensures(x, out@);
    }
    out.insert(p, x);
}

/// `insert_by_start` places the new range at the first index whose start
/// is greater.
proof fn lemma_insert_by_start_at(x: CharRange, s: Seq<CharRange>, p: int)
    requires
        is_sorted_by_start(s),
        0 <= p <= s.len(),
        forall|j: int| 0 <= j < p ==> s[j].start <= x.start,
        p < s.len() ==> s[p].start > x.start,
    ensures
        insert_by_start(x, s) == s.insert(p, x),
    decreases s.len(),
{
    if s.len() == 0 {
        assert(insert_by_start(x, s) =~= s.insert(0, x));
    } else if p == 0 {
        assert(insert_by_start(x, s) =~= s.insert(0, x));
    } else {
        let t = s.drop_first();
        assert(forall|i: int, j: int| 0 <= i < j < t.len() ==> t[i].start <= t[j].start);
        assert(forall|j: int| 0 <= j < p - 1 ==> t[j].start <= x.start);
        lemma_insert_by_start_at(x, t, p - 1);
        assert(seq![s[0]] + t.insert(p - 1, x) =~= s.insert(p, x));
    }
}

/// Sorts all ranges by start offset, stably.
pub fn sort_by_start_exec(v: &Vec<CharRange>) -> (r: Vec<CharRange>)
    ensures
        r@ == sorted_by_start(v@),
        is_sorted_by_start(r@),
{
    let mut out: Vec<CharRange> = Vec::new();
    let mut i: usize = 0;
    proof {
        assert(v@.take(0) =~= Seq::<CharRange>::empty());
    }
    while i < v.len()
        invariant
            i <= v@.len(),
            out@ == sorted_by_start(v@.take(i as int)),
            is_sorted_by_start(out@),
        decreases v@.len() - i,
    {
        let x = v[i];
        proof {
            let t = v@.take(i + 1);
            assert(t.drop_last() =~= v@.take(i as int));
            assert(t.last() == v@[i as int]);
        }
        insert_sorted(&mut out, x);
        i += 1;
    }
    proof {
        assert(v@.take(v@.len() as int) =~= v@);
    }
    out
}

// ---------- flattening ----------

/// All highlight ranges of all emotes, in arrival order.
pub open spec fn all_ranges(es: Seq<EmoteView>) -> Seq<CharRange>
    decreases es.len(),
{
    if es.len() == 0 {
        Seq::empty()
    } else {
        es[0].ranges + all_ranges(es.drop_first())
    }
}

/// Collects every range of every emote, in arrival order.
pub fn flatten_ranges(emotes: &Vec<Emote>) -> (r: Vec<CharRange>)
    ensures
        r@ == all_ranges(emotes.deep_view()),
{
    let ghost dv = emotes.deep_view();
    let mut r: Vec<CharRange> = Vec::new();
    let mut i: usize = 0;
    proof {
        assert(dv.skip(0) =~= dv);
        assert(r@ =~= Seq::<CharRange>::empty());
        assert(r@ + all_ranges(dv) =~= all_ranges(dv));
    }
    while i < emotes.len()
        invariant
            dv == emotes.deep_view(),
            emotes@.len() == dv.len(),
            i <= dv.len(),
            all_ranges(dv) == r@ + all_ranges(dv.skip(i as int)),
        decreases dv.len() - i,
    {
        proof {
            assert(dv.skip(i as int)[0] == dv[i as int]);
            assert(dv.skip(i as int).drop_first() =~= dv.skip(i + 1));
        }
        let e = &emotes[i];
        let mut j: usize = 0;
        let ghost r_before = r@;
        while j < e.ranges.len()
            invariant
                0 <= i < dv.len(),
                dv == emotes.deep_view(),
                emotes@.len() == dv.len(),
                e == &emotes@[i as int],
                j <= e.ranges@.len(),
                r@ == r_before + e.ranges@.take(j as int),
            decreases e.ranges@.len() - j,
        {
            let x = e.ranges[j];
            r.push(x);
            proof {
                assert(r_before + e.ranges@.take(j + 1) =~= (r_before + e.ranges@.take(
                    j as int,
                )).push(x));
            }
            j += 1;
        }
        proof {
            assert(e.ranges@.take(e.ranges@.len() as int) =~= e.ranges@);
            assert(dv[i as int].ranges == e.ranges@);
            assert(r@ + all_ranges(dv.skip(i + 1)) =~= (r_before + e.ranges@) + all_ranges(
                dv.skip(i + 1),
            ));
            assert(all_ranges(dv) == r@ + all_ranges(dv.skip(i + 1)));
        }
        i += 1;
    }
    proof {
        assert(dv.skip(dv.len() as int) =~= Seq::<EmoteView>::empty());
        assert(r@ + all_ranges(dv.skip(dv.len() as int)) =~= r@);
    }
    r
}

// ---------- the content walk ----------

/// Clamps an index to the content length, as a saturating slice does.
pub open spec fn clamp(i: int, n: int) -> int {
    if i <= n {
        i
    } else {
        n
    }
}

/// The content walk over start-sorted ranges, with a cursor starting at
/// zero: an unhighlighted gap up to each range's start, the range itself
/// underlined, the cursor moved to the range's end, and the tail after the
/// last range plain; every slice is clamped to the content, and every
/// segment carries the action italic.
pub open spec fn emit_ranges(
    content: Seq<char>,
    rs: Seq<CharRange>,
    prev_end: int,
    italic: bool,
) -> Seq<char>
    decreases rs.len(),
{
    let n = content.len() as int;
    if rs.len() == 0 {
        if 0 <= prev_end < n {
            styled_text(content.subrange(prev_end, n), None, italic, false)
        } else {
            Seq::empty()
        }
    } else {
        let r = rs[0];
        let gap = if 0 <= prev_end < r.start {
            styled_text(
                content.subrange(clamp(prev_end, n), clamp(r.start as int, n)),
                None,
                italic,
                false,
            )
        } else {
            Seq::empty()
        };
        let hi = if r.start < r.end {
            styled_text(
                content.subrange(clamp(r.start as int, n), clamp(r.end as int, n)),
                None,
                italic,
                true,
            )
        } else {
            Seq::empty()
        };
        gap + hi + emit_ranges(content, rs.drop_first(), r.end as int, italic)
    }
}

/// Walks the content over the sorted ranges and paints each segment.
#[verifier::rlimit(50)]
pub fn render_content(content: &str, sorted: &Vec<CharRange>, italic: bool) -> (out: String)
    ensures
        out@ == emit_ranges(content@, sorted@, 0, italic),
{
    let n = content.unicode_len();
    let mut out = String::new();
    let mut prev_end: usize = 0;
    let mut i: usize = 0;
    proof {
        assert(sorted@.skip(0) =~= sorted@);
        assert(out@ + emit_ranges(content@, sorted@, 0, italic) =~= emit_ranges(
            content@,
            sorted@,
            0,
            italic,
        ));
    }
    while i < sorted.len()
        invariant
            n == content@.len() <= usize::MAX,
            i <= sorted@.len(),
            emit_ranges(content@, sorted@, 0, italic) == out@ + emit_ranges(
                content@,
                sorted@.skip(i as int),
                prev_end as int,
                italic,
            ),
        decreases sorted@.len() - i,
    {
        proof {
            assert(sorted@.skip(i as int)[0] == sorted@[i as int]);
            assert(sorted@.skip(i as int).drop_first() =~= sorted@.skip(i + 1));
        }
        let r = sorted[i];
        if prev_end < r.start {
            let lo = if prev_end < n {
                prev_end
            } else {
                n
            };
            let hi = if r.start < n {
                r.start
            } else {
                n
            };
            let seg = content.substring_char(lo, hi);
            let piece = paint_styled(
                seg,
                TextStyle { color: None, italic, underline: false },
            );
            out.append(piece.as_str());
        }
        if r.start < r.end {
            let lo = if r.start < n {
                r.start
            } else {
                n
            };
            let hi = if r.end < n {
                r.end
            } else {
                n
            };
            let seg = content.substring_char(lo, hi);
            let piece = paint_styled(seg, TextStyle { color: None, italic, underline: true });
            out.append(piece.as_str());
        }
        prev_end = r.end;
        i += 1;
    }
    proof {
        assert(sorted@.skip(sorted@.len() as int) =~= Seq::<CharRange>::empty());
    }
    if prev_end < n {
        let seg = content.substring_char(prev_end, n);
        let piece = paint_styled(seg, TextStyle { color: None, italic, underline: false });
        out.append(piece.as_str());
    }
    out
}

// ---------- order independence ----------

/// Ranges that never overlap: any two at different positions are disjoint.
pub open spec fn ranges_disjoint(s: Seq<CharRange>) -> bool {
    forall|i: int, j: int|
        #![trigger s[i], s[j]]
        0 <= i < s.len() && 0 <= j < s.len() && i != j ==> (s[i].end <= s[j].start || s[j].end
            <= s[i].start)
}

/// Every range covers at least one codepoint.
pub open spec fn ranges_nonempty(s: Seq<CharRange>) -> bool {
    forall|i: int| 0 <= i < s.len() ==> (#[trigger] s[i]).start < s[i].end
}

/// No two distinct ranges in the collection share a start offset.
pub open spec fn starts_distinct(m: Multiset<CharRange>) -> bool {
    forall|x: CharRange, y: CharRange|
        m.contains(x) && m.contains(y) && x != y ==> x.start != y.start
}

/// Disjoint, non-empty ranges all have different starts.
proof fn lemma_starts_distinct(s: Seq<CharRange>)
    requires
        ranges_disjoint(s),
        ranges_nonempty(s),
    ensures
        starts_distinct(s.to_multiset()),
{
    broadcast use vstd::seq_lib::group_to_multiset_ensures;

    assert forall|x: CharRange, y: CharRange|
        s.to_multiset().contains(x) && s.to_multiset().contains(y) && x != y implies x.start
        != y.start by {
        assert(s.contains(x));
        assert(s.contains(y));
        let i = choose|i: int| 0 <= i < s.len() && s[i] == x;
        let j = choose|j: int| 0 <= j < s.len() && s[j] == y;
        assert(i != j);
        assert(s[i].end <= s[j].start || s[j].end <= s[i].start);
        assert(s[i].start < s[i].end);
        assert(s[j].start < s[j].end);
    }
}

/// A multiset with pairwise distinct starts has exactly one start-sorted
/// arrangement.
proof fn lemma_sorted_unique(a: Seq<CharRange>, b: Seq<CharRange>)
    requires
        is_sorted_by_start(a),
        is_sorted_by_start(b),
        a.to_multiset() == b.to_multiset(),
        starts_distinct(a.to_multiset()),
    ensures
        a == b,
    decreases a.len(),
{
    broadcast use vstd::seq_lib::group_to_multiset_ensures;

    if a.len() == 0 {
        assert(a.to_multiset().len() == a.len());
        assert(b.to_multiset().len() == b.len());
        assert(b.len() == 0);
        assert(a =~= b);
    } else {
        assert(a.to_multiset().len() == a.len());
        assert(b.to_multiset().len() == b.len());
        assert(b.len() == a.len());
        assert(b.contains(b[0]));
        assert(a.to_multiset().contains(b[0]));
        assert(a.contains(b[0]));
        let k = choose|k: int| 0 <= k < a.len() && a[k] == b[0];
        assert(a[0].start <= b[0].start);
        assert(a.contains(a[0]));
        assert(b.to_multiset().contains(a[0]));
        assert(b.contains(a[0]));
        let l = choose|l: int| 0 <= l < b.len() && b[l] == a[0];
        assert(b[0].start <= a[0].start);
        assert(a.to_multiset().contains(a[0]));
        assert(a[0] == b[0]);
        let at = a.drop_first();
        let bt = b.drop_first();
        assert(a.remove(0) =~= at);
        assert(b.remove(0) =~= bt);
        assert(at.to_multiset() =~= a.to_multiset().remove(a[0]));
        assert(bt.to_multiset() =~= b.to_multiset().remove(b[0]));
        assert(forall|i: int, j: int| 0 <= i < j < at.len() ==> at[i].start <= at[j].start);
        assert(forall|i: int, j: int| 0 <= i < j < bt.len() ==> bt[i].start <= bt[j].start);
        assert forall|x: CharRange, y: CharRange|
            at.to_multiset().contains(x) && at.to_multiset().contains(y) && x != y implies x.start
            != y.start by {
            assert(a.to_multiset().contains(x));
            assert(a.to_multiset().contains(y));
        }
        lemma_sorted_unique(at, bt);
        assert forall|i: int| 0 <= i < a.len() implies a[i] == b[i] by {
            if i > 0 {
                assert(at[i - 1] == bt[i - 1]);
            }
        }
        assert(a =~= b);
    }
}

/// Law: the content walk is insensitive to the arrival order of the emote
/// ranges. Two range lists holding the same ranges — pairwise disjoint
/// and individually non-empty, as the wire format produces them — sort to
/// the same list, so the rendered content is identical whatever order the
/// ranges arrived in.
pub proof fn lemma_render_order_independent(
    content: Seq<char>,
    rs1: Seq<CharRange>,
    rs2: Seq<CharRange>,
    italic: bool,
)
    requires
        rs1.to_multiset() == rs2.to_multiset(),
        ranges_disjoint(rs1),
        ranges_nonempty(rs1),
    ensures
        sorted_by_start(rs1) == sorted_by_start(rs2),
        emit_ranges(content, sorted_by_start(rs1), 0, italic) == emit_ranges(
            content,
            sorted_by_start(rs2),
            0,
            italic,
        ),
{
    lemma_sorted_by_start_ensures(rs1);
    lemma_sorted_by_start_ensures(rs2);
    lemma_starts_distinct(rs1);
    lemma_sorted_unique(sorted_by_start(rs1), sorted_by_start(rs2));
}

/// Law: two messages equal except for the order their emote ranges
/// arrived in render to the identical styled text.
pub proof fn lemma_message_order_independent(m1: MessageView, m2: MessageView)
    requires
        m2 == (MessageView { emotes: m2.emotes, ..m1 }),
        all_ranges(m1.emotes).to_multiset() == all_ranges(m2.emotes).to_multiset(),
        ranges_disjoint(all_ranges(m1.emotes)),
        ranges_nonempty(all_ranges(m1.emotes)),
    ensures
        rendered_message(m1) == rendered_message(m2),
{
    lemma_render_order_independent(
        m1.content,
        all_ranges(m1.emotes),
        all_ranges(m2.emotes),
        m1.is_action,
    );
}

// ---------- the whole message ----------

/// The name segment's text: the display name when it equals the login
/// handle up to ASCII case, both with the handle in parentheses when they
/// differ, and the handle alone when no display name came.
pub open spec fn name_text(m: MessageView) -> Seq<char> {
    match m.display_name {
        Some(d) => if eq_ignore_case(d, m.nick_name) {
            d
        } else {
            d + " ("@ + m.nick_name + ")"@
        },
        None => m.nick_name,
    }
}

/// The color the name segment is painted with, if the message has one.
pub open spec fn name_color(m: MessageView) -> Option<PaintColor> {
    match m.color {
        Some(c) => Some(PaintColor::Rgb(c)),
        None => None,
    }
}

/// The whole rendered message: the possibly colored name, then a single
/// space for an action post or a colon and space otherwise, then the
/// content walk with the action's italic styling on every content
/// segment.
pub open spec fn rendered_message(m: MessageView) -> Seq<char> {
    styled_text(name_text(m), name_color(m), false, false) + (if m.is_action {
        " "@
    } else {
        ": "@
    }) + emit_ranges(m.content, sorted_by_start(all_ranges(m.emotes)), 0, m.is_action)
}

impl TwitchMessage {
    /// Renders the message as styled text, exactly as [`rendered_message`]
    /// describes.
    pub fn render(&self) -> (r: String)
        ensures
            r@ == rendered_message(self@),
    {
        let name: String = match self.display_name() {
            Some(d) => {
                if crate::text::eq_ignore_ascii_case(d.as_str(), self.nick_name().as_str()) {
                    d.clone()
                } else {
                    let mut s = d.clone();
                    s.append(" (");
                    s.append(self.nick_name().as_str());
                    s.append(")");
                    s
                }
            },
            None => self.nick_name().clone(),
        };
        proof {
            assert(name@ == name_text(self@));
        }
        let color: Option<PaintColor> = match self.color() {
            Some(c) => Some(PaintColor::Rgb(*c)),
            None => None,
        };
        let mut out = paint_styled(
            name.as_str(),
            TextStyle { color, italic: false, underline: false },
        );
        if self.is_action() {
            out.append(" ");
        } else {
            out.append(": ");
        }
        let flat = flatten_ranges(self.emotes());
        let sorted = sort_by_start_exec(&flat);
        let body = render_content(self.content().as_str(), &sorted, self.is_action());
        out.append(body.as_str());
        proof {
            assert(out@ =~= rendered_message(self@));
        }
        out
    }
}

} // verus!
