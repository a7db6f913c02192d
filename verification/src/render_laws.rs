//! Laws of rendering: what bars, spinners and whole lines always satisfy.
use vstd::prelude::*;
use crate::format::parser::PlaceholderView;
use crate::render::Rendered;
use crate::render::LineResult;
use crate::render::item_pass;
use crate::render::joined;
use crate::render::last_pass;
use crate::render::layout_at;
use crate::render::line_result;
use crate::render::ValuesView;
use crate::render::bounded_bar;
use crate::render::bouncing_bar;
use crate::render::filled_cells;
use crate::render::half_up;
use crate::render::empty_share;
use crate::render::item_text;
use crate::render::painted;
use crate::render::partial_index;
use crate::render::repeat_text;
use crate::render::spinner_text;
use crate::style::StyleView;
use crate::template::ItemView;
use crate::format::parser::WidthPrecisionSpec;
use crate::format::parser::PartView;
use crate::format::parser::ParseOutcome;
use crate::format::parser::parse_outcome;
use crate::template::TemplateOutcome;
use crate::template::template_outcome;
use crate::template::template_config;
use crate::format::parser::format_spec_of;
use crate::text::decimal;
use crate::text::display_uint;
use crate::render::Layout;
use crate::render::Stop;
use crate::render::layout_step;
use crate::render::layout_start;
use crate::render::numeric_text;
use crate::render::bar_text;
use crate::render::sat_sub;
use crate::external::text_width;
use crate::template::KeyView;
use crate::render::placeholder_text;
use crate::format::duration::human_duration;
use crate::format::duration::Duration;
use crate::text::FormatSpec;
use crate::text::repeat_char;

verus! {

proof fn lemma_repeat_len(t: Seq<char>, n: nat)
    ensures
        repeat_text(t, n).len() == n * t.len(),
        t.len() == 1 ==> repeat_text(t, n).len() == n,
    decreases n,
{
    if n > 0 {
        lemma_repeat_len(t, (n - 1) as nat);
        assert((n - 1) * t.len() + t.len() == n * t.len()) by (nonlinear_arith);
    }
}

proof fn lemma_repeat_split(t: Seq<char>, a: nat, b: nat)
    ensures
        repeat_text(t, a) + repeat_text(t, b) == repeat_text(t, a + b),
    decreases b,
{
    if b == 0 {
        assert(repeat_text(t, a) + repeat_text(t, 0) =~= repeat_text(t, a));
    } else {
        lemma_repeat_split(t, a, (b - 1) as nat);
        assert(repeat_text(t, a) + repeat_text(t, b) =~= repeat_text(t, a) + repeat_text(t, (b - 1) as nat) + t);
    }
}

proof fn lemma_filled_within(pos: nat, len: nat, w: nat)
    ensures
        filled_cells(pos, len, w) <= w,
{
    if len > 0 {
        let p = if pos < len { pos } else { len };
        let x = p * w;
        assert(x <= len * w) by (nonlinear_arith)
            requires
                p <= len,
                x == p * w,
        ;
        assert(x / len <= w) by (nonlinear_arith)
            requires
                len > 0,
                x <= len * w,
        ;
        assert(x % len > 0 ==> x / len < w) by (nonlinear_arith)
            requires
                len > 0,
                x <= len * w,
        ;
        assert(x % len < len) by (nonlinear_arith)
            requires
                len > 0,
        ;
        if x % len == 0 {
            assert((x % len) * 10000000 < len * 9999999) by (nonlinear_arith)
                requires
                    len > 0,
                    x % len == 0,
            ;
        }
    }
}

/// Law: a bar drawn with one-character bar characters is exactly as many
/// characters long as its width, whatever the position.
pub proof fn law_bar_width(chars: Seq<Seq<char>>, pos: nat, len: nat, w: nat)
    requires
        chars.len() >= 2,
        forall|i: int| 0 <= i < chars.len() ==> (#[trigger] chars[i]).len() == 1,
    ensures
        bounded_bar(chars, pos, len, w).len() == w,
{
    let whole = filled_cells(pos, len, w);
    lemma_filled_within(pos, len, w);
    lemma_repeat_len(chars[0], whole);
    assert(chars[0].len() == 1);
    assert(repeat_text(chars[0], whole).len() == whole);
    if whole < w {
        let k = (chars.len() - 1) as nat;
        let i = partial_index(pos, len, w, k);
        assert(i < k);
        assert(chars[1 + i as int].len() == 1);
        assert(chars.last().len() == 1) by {
            assert(chars[chars.len() - 1].len() == 1);
        }
        lemma_repeat_len(chars.last(), (w - whole - 1) as nat);
        assert(repeat_text(chars.last(), (w - whole - 1) as nat).len() == w - whole - 1);
    }
}

/// Law: a bar at or past its length (or with a length of 0) is all filled.
pub proof fn law_bar_full(chars: Seq<Seq<char>>, pos: nat, len: nat, w: nat)
    requires
        chars.len() >= 2,
        pos >= len,
    ensures
        bounded_bar(chars, pos, len, w) == repeat_text(chars[0], w),
{
    if len > 0 {
        assert(len * w % len == 0 && len * w / len == w) by (nonlinear_arith)
            requires
                len > 0,
        ;
        assert(0 * 10000000 < len * 9999999);
    }
    assert(filled_cells(pos, len, w) == w);
}

/// Law: a bar at position 0 of a nonzero length is all empty.
pub proof fn law_bar_empty_at_start(chars: Seq<Seq<char>>, len: nat, w: nat)
    requires
        chars.len() >= 2,
        len > 0,
        w > 0,
    ensures
        bounded_bar(chars, 0, len, w) == repeat_text(chars.last(), w),
{
    assert(0 * w == 0);
    assert(0nat % len == 0 && 0nat / len == 0) by (nonlinear_arith)
        requires
            len > 0,
    ;
    assert(0nat * 10000000 < len * 9999999);
    assert(filled_cells(0, len, w) == 0);
    assert(empty_share(0, len, w) == len);
    let k = (chars.len() - 1) as nat;
    assert(k * len % len == 0 && k * len / len == k) by (nonlinear_arith)
        requires
            len > 0,
    ;
    assert(half_up(k * len, len) == k);
    assert(partial_index(0, len, w, k) == k - 1);
    assert(chars[1 + (k - 1)] == chars.last());
    assert(repeat_text(chars[0], 0) =~= Seq::<char>::empty());
    assert(repeat_text(chars.last(), 1) =~= chars.last()) by {
        assert(repeat_text(chars.last(), 0) =~= Seq::<char>::empty());
    }
    lemma_repeat_split(chars.last(), 1, (w - 1) as nat);
    assert(Seq::<char>::empty() + chars.last() + repeat_text(chars.last(), (w - 1) as nat)
        =~= repeat_text(chars.last(), 1) + repeat_text(chars.last(), (w - 1) as nat));
}

proof fn lemma_filled_closed_form(x: nat, len: nat)
    requires
        len > 0,
    ensures
        (if (x % len) * 10000000 >= len * 9999999 { x / len + 1 } else { x / len }) == (x * 10000000 + len) / (len
            * 10000000),
{
    let q = x / len;
    let r = x % len;
    assert(x == q * len + r && 0 <= r < len) by (nonlinear_arith)
        requires
            len > 0,
            q == x / len,
            r == x % len,
    ;
    let d = len * 10000000;
    let m = r * 10000000 + len;
    assert(x * 10000000 + len == q * d + m) by (nonlinear_arith)
        requires
            x == q * len + r,
            d == len * 10000000,
            m == r * 10000000 + len,
    ;
    assert(0 <= m < 2 * d) by (nonlinear_arith)
        requires
            0 <= r < len,
            d == len * 10000000,
            m == r * 10000000 + len,
    ;
    assert((m >= d) == (r * 10000000 >= len * 9999999)) by (nonlinear_arith)
        requires
            d == len * 10000000,
            m == r * 10000000 + len,
    ;
    if m >= d {
        assert((q * d + m) / d == q + 1) by (nonlinear_arith)
            requires
                d > 0,
                d <= m < 2 * d,
        ;
    } else {
        assert((q * d + m) / d == q) by (nonlinear_arith)
            requires
                d > 0,
                0 <= m < d,
        ;
    }
}

/// Law: more progress never fills fewer cells.
pub proof fn law_fill_monotone(pos1: nat, pos2: nat, len: nat, w: nat)
    requires
        pos1 <= pos2,
    ensures
        filled_cells(pos1, len, w) <= filled_cells(pos2, len, w),
{
    if len > 0 {
        let p1 = if pos1 < len { pos1 } else { len };
        let p2 = if pos2 < len { pos2 } else { len };
        let x1 = p1 * w;
        let x2 = p2 * w;
        assert(x1 <= x2) by (nonlinear_arith)
            requires
                p1 <= p2,
                x1 == p1 * w,
                x2 == p2 * w,
        ;
        lemma_filled_closed_form(x1, len);
        lemma_filled_closed_form(x2, len);
        assert((x1 * 10000000 + len) / (len * 10000000) <= (x2 * 10000000 + len) / (len * 10000000)) by (nonlinear_arith)
            requires
                x1 <= x2,
                len > 0,
        ;
    }
}

/// Law: a bouncing bar, with a bouncer of as many characters as its width
/// says, is exactly as many characters long as the bar is wide.
pub proof fn law_bouncer_width(bouncer: Seq<char>, ticks: u64, w: nat)
    ensures
        bouncing_bar(bouncer, bouncer.len(), ticks, w) matches Rendered::Text(t) ==> t.len() == w,
{
}

/// Law: the spinner comes back to the same frame after as many ticks as it
/// has frames.
pub proof fn law_spinner_cycles(s: StyleView, v: ValuesView, f: FormatSpec)
    requires
        s.spinner_chars.len() > 0,
        v.ticks + s.spinner_chars.len() <= usize::MAX,
    ensures
        spinner_text(s, ValuesView { ticks: (v.ticks + s.spinner_chars.len()) as u64, ..v }, f) == spinner_text(s, v, f),
{
    let n = s.spinner_chars.len();
    let t = v.ticks as nat;
    assert((t + n) % n == t % n) by (nonlinear_arith)
        requires
            n > 0,
    ;
    assert(((v.ticks + n) as u64) as usize as nat == t + n);
    assert((v.ticks as usize) as nat == t);
}

/// Law: an answer of the formatter replaces what a placeholder would show,
/// built-in keys included; only its `$` style is still applied.
pub proof fn law_formatter_overrides(
    s: StyleView,
    v: ValuesView,
    key: KeyView,
    p: PlaceholderView,
    t: Seq<char>,
    total: nat,
    avail: nat,
)
    ensures
        item_text(s, v, ItemView::Placeholder(key, p), Some(t), total, avail) == Rendered::Text(
            painted(p.ansi_style, t, v.colors),
        ),
{
}


/// Law: an empty bouncer leaves an unbounded bar blank: spaces all along.
pub proof fn law_empty_bouncer_is_blank(ticks: u64, w: nat)
    requires
        w > 0,
    ensures
        bouncing_bar(Seq::empty(), 0, ticks, w) matches Rendered::Text(t) && t == repeat_char(' ', w),
{
    let room = w;
    let p0 = ((ticks as usize) as nat) % (2 * room);
    let p = if p0 > room { (2 * room - p0) as nat } else { p0 };
    assert(repeat_char(' ', p) + Seq::<char>::empty() + repeat_char(' ', (w - p) as nat) =~= repeat_char(' ', w));
}

/// The literal texts of items that are all literals.
pub open spec fn literal_texts(items: Seq<ItemView>) -> Seq<Seq<char>> {
    items.map_values(|it: ItemView| match it {
        ItemView::Literal(t) => t,
        ItemView::Placeholder(_, _) => Seq::empty(),
    })
}

proof fn lemma_literals_last_pass(items: Seq<ItemView>)
    requires
        forall|i: int| 0 <= i < items.len() ==> (#[trigger] items[i]) is Literal,
    ensures
        last_pass(items) == 0,
    decreases items.len(),
{
    if items.len() > 0 {
        let d = items.drop_last();
        assert forall|i: int| 0 <= i < d.len() implies (#[trigger] d[i]) is Literal by {
            assert(d[i] == items[i]);
        }
        lemma_literals_last_pass(d);
        assert(items.last() == items[items.len() - 1]);
    }
}

proof fn lemma_literals_layout(s: StyleView, v: ValuesView, answers: Seq<Option<Seq<char>>>, total: nat, i: nat)
    requires
        i <= s.template.len(),
        forall|j: int| 0 <= j < s.template.len() ==> (#[trigger] s.template[j]) is Literal,
    ensures
        layout_at(s, v, answers, total, 0, i).stop is Running,
        layout_at(s, v, answers, total, 0, i).texts.len() == s.template.len(),
        forall|j: int| 0 <= j < i ==> #[trigger] layout_at(s, v, answers, total, 0, i).texts[j] == literal_texts(s.template)[j],
        forall|j: int| i <= j < s.template.len() ==> #[trigger] layout_at(s, v, answers, total, 0, i).texts[j] == Seq::<char>::empty(),
    decreases i,
{
    if i > 0 {
        lemma_literals_layout(s, v, answers, total, (i - 1) as nat);
        let k = i - 1;
        assert(s.template[k] is Literal);
        assert(item_pass(s.template[k]) == 0);
    }
}

/// Law: a template made only of literal text renders as that text, whatever
/// the width and whatever the formatter says.
pub proof fn law_literals_render_as_written(s: StyleView, v: ValuesView, total: nat, answers: Seq<Option<Seq<char>>>)
    requires
        forall|i: int| 0 <= i < s.template.len() ==> (#[trigger] s.template[i]) is Literal,
    ensures
        line_result(s, v, total, answers) == LineResult::Line(joined(literal_texts(s.template))),
{
    lemma_literals_last_pass(s.template);
    let n = s.template.len();
    lemma_literals_layout(s, v, answers, total, n);
    let st = layout_at(s, v, answers, total, 0, n);
    assert(layout_at(s, v, answers, total, 1, 0) == st);
    assert(st.texts =~= literal_texts(s.template));
}


/// A placeholder with the given index, key and width and no other
/// specifier.
pub open spec fn bare_placeholder(part_idx: nat, key: Seq<char>, width: Option<WidthPrecisionSpec>) -> PlaceholderView {
    PlaceholderView {
        part_idx,
        key,
        alt: false,
        zero: false,
        sign: None,
        fill: None,
        align: None,
        width,
        precision: None,
        deferred: 0,
        extra_args: None,
        extra_flags: Seq::empty(),
        ansi_style: None,
    }
}

} // verus!

verus! {

/// The items of the template `[{bar:50}] {pos}/{len}`.
pub open spec fn simple_bar_items() -> Seq<ItemView> {
    seq![
        ItemView::Literal("["@),
        ItemView::Placeholder(KeyView::Bar, bare_placeholder(1, "bar"@, Some(WidthPrecisionSpec::Absolute(50)))),
        ItemView::Literal("] "@),
        ItemView::Placeholder(KeyView::Position, bare_placeholder(3, "pos"@, None)),
        ItemView::Literal("/"@),
        ItemView::Placeholder(KeyView::Total, bare_placeholder(5, "len"@, None)),
    ]
}

/// A two-character bar at `p` of 100, 50 cells wide: one filled cell per
/// two percent, the rest empty.
proof fn lemma_half_bar(p: nat)
    requires
        p <= 100,
    ensures
        bounded_bar(seq!["="@, "-"@], p, 100, 50) == repeat_text("="@, p / 2) + repeat_text("-"@, (50 - p / 2) as nat),
{
    let chars = seq!["="@, "-"@];
    let x = p * 50;
    assert(x / 100 == p / 2 && x % 100 <= 50) by (nonlinear_arith)
        requires
            x == p * 50,
            p <= 100,
    ;
    assert((x % 100) * 10000000 < 100 * 9999999);
    assert(filled_cells(p, 100, 50) == p / 2);
    if p / 2 < 50 {
        assert(partial_index(p, 100, 50, 1) == 0);
        assert(chars[1] == "-"@);
        assert(chars.last() == "-"@);
        lemma_repeat_split("-"@, 1, (50 - p / 2 - 1) as nat);
        assert(repeat_text("-"@, 1) =~= "-"@) by {
            assert(repeat_text("-"@, 0) =~= Seq::<char>::empty());
        }
        assert(bounded_bar(chars, p, 100, 50) =~= repeat_text("="@, p / 2) + repeat_text("-"@, (50 - p / 2) as nat));
    } else {
        assert(p / 2 == 50);
        assert(repeat_text("-"@, 0) =~= Seq::<char>::empty());
        assert(bounded_bar(chars, p, 100, 50) =~= repeat_text("="@, p / 2) + repeat_text("-"@, (50 - p / 2) as nat));
    }
}

/// A plain number with no options.
proof fn lemma_plain_number(p: PlaceholderView, n: u64, total: int, avail: int)
    requires
        p.width is None,
        p.precision is None,
        p.sign is None,
        !p.zero,
        p.extra_args is None,
    ensures
        numeric_text(p.extra_args, p.alt, n, format_spec_of(p, total, avail)) == Rendered::Text(decimal(n as nat)),
{
    let f = format_spec_of(p, total, avail);
    assert(Seq::<char>::empty() + decimal(n as nat) =~= decimal(n as nat));
    assert(display_uint(f, n as nat) == decimal(n as nat));
}

proof fn lemma_step_text(s: StyleView, v: ValuesView, answers: Seq<Option<Seq<char>>>, total: nat, k: nat, t: Seq<char>)
    requires
        k < s.template.len(),
        item_pass(s.template[k as int]) == 0,
        layout_at(s, v, answers, total, 0, k).stop is Running,
        item_text(s, v, s.template[k as int], answers[k as int], total, layout_at(s, v, answers, total, 0, k).avail)
            == Rendered::Text(t),
    ensures
        layout_at(s, v, answers, total, 0, k + 1) == (Layout {
            texts: layout_at(s, v, answers, total, 0, k).texts.update(k as int, t),
            avail: sat_sub(layout_at(s, v, answers, total, 0, k).avail, text_width(t)),
            stop: Stop::Running,
        }),
{
}

proof fn lemma_simple_bar_passes()
    ensures
        last_pass(simple_bar_items()) == 0,
        forall|i: int| 0 <= i < 6 ==> item_pass(#[trigger] simple_bar_items()[i]) == 0,
{
    reveal_with_fuel(last_pass, 7);
}

proof fn lemma_join_six(t: Seq<Seq<char>>)
    requires
        t.len() == 6,
    ensures
        joined(t) == t[0] + t[1] + t[2] + t[3] + t[4] + t[5],
{
    reveal_with_fuel(joined, 7);
    assert(t.drop_last().drop_last().drop_last().drop_last().drop_last().drop_last() =~= Seq::<Seq<char>>::empty());
    assert(t.drop_last().drop_last().drop_last().drop_last().drop_last() =~= seq![t[0]]);
    assert(t.drop_last().drop_last().drop_last().drop_last() =~= seq![t[0], t[1]]);
    assert(t.drop_last().drop_last().drop_last() =~= seq![t[0], t[1], t[2]]);
    assert(t.drop_last().drop_last() =~= seq![t[0], t[1], t[2], t[3]]);
    assert(t.drop_last() =~= seq![t[0], t[1], t[2], t[3], t[4]]);
    assert(joined(seq![t[0]]) =~= t[0]) by {
        assert(seq![t[0]].drop_last() =~= Seq::<Seq<char>>::empty());
    }
}

proof fn lemma_bar_item(s: StyleView, v: ValuesView, total: nat, avail: nat)
    requires
        s.template == simple_bar_items(),
        s.progress_bar_chars == seq!["="@, "-"@],
        v.total == Some(100u64),
        avail >= 50,
    ensures
        item_text(s, v, s.template[1], None, total, avail) == Rendered::Text(
            bounded_bar(seq!["="@, "-"@], v.position as nat, 100, 50),
        ),
{
    let pb = bare_placeholder(1, "bar"@, Some(WidthPrecisionSpec::Absolute(50)));
    let fb = format_spec_of(pb, total as int, avail as int);
    assert(fb.width == Some(50usize));
    assert(bar_text(s, v, 50) == Rendered::Text(bounded_bar(seq!["="@, "-"@], v.position as nat, 100, 50)));
}

/// Law: with the bar characters `=` and `-` and at least 50 columns free
/// after the `[`, the template `[{bar:50}] {pos}/{len}` of a bar at `p` of
/// 100 renders as `[`, one `=` per two percent, `-` for the rest of the 50
/// cells, `] `, and `p/100`.
#[verifier::rlimit(40)]
pub proof fn law_simple_bar_line(s: StyleView, v: ValuesView, total: nat, answers: Seq<Option<Seq<char>>>)
    requires
        template_outcome("[{bar:50}] {pos}/{len}"@) == TemplateOutcome::Parsed(s.template),
        s.progress_bar_chars == seq!["="@, "-"@],
        v.total == Some(100u64),
        v.position <= 100,
        answers.len() == 6,
        forall|i: int| 0 <= i < 6 ==> (#[trigger] answers[i]) is None,
        total >= text_width("["@) + 50,
    ensures
        line_result(s, v, total, answers) == LineResult::Line(
            "["@ + repeat_text("="@, v.position as nat / 2) + repeat_text("-"@, (50 - v.position as nat / 2) as nat) + "] "@
                + decimal(v.position as nat) + "/"@ + decimal(100),
        ),
{
    let items = simple_bar_items();
    let pos = v.position as nat;
    lemma_simple_bar_template();
    assert(s.template == items);
    lemma_simple_bar_passes();
    assert(layout_at(s, v, answers, total, 1, 0) == layout_at(s, v, answers, total, 0, 6));
    let st0 = layout_at(s, v, answers, total, 0, 0);
    assert(st0 == layout_start(6, total));
    assert(answers[0] is None && answers[1] is None && answers[2] is None);
    assert(answers[3] is None && answers[4] is None && answers[5] is None);
    lemma_step_text(s, v, answers, total, 0, "["@);
    let st1 = layout_at(s, v, answers, total, 0, 1);
    let bar = bounded_bar(seq!["="@, "-"@], pos, 100, 50);
    lemma_bar_item(s, v, total, st1.avail);
    lemma_step_text(s, v, answers, total, 1, bar);
    let st2 = layout_at(s, v, answers, total, 0, 2);
    lemma_step_text(s, v, answers, total, 2, "] "@);
    let st3 = layout_at(s, v, answers, total, 0, 3);
    lemma_plain_number(bare_placeholder(3, "pos"@, None), v.position, total as int, st3.avail as int);
    lemma_step_text(s, v, answers, total, 3, decimal(pos));
    let st4 = layout_at(s, v, answers, total, 0, 4);
    lemma_step_text(s, v, answers, total, 4, "/"@);
    let st5 = layout_at(s, v, answers, total, 0, 5);
    lemma_plain_number(bare_placeholder(5, "len"@, None), 100u64, total as int, st5.avail as int);
    lemma_step_text(s, v, answers, total, 5, decimal(100));
    let t = layout_at(s, v, answers, total, 0, 6).texts;
    assert(t =~= seq!["["@, bar, "] "@, decimal(pos), "/"@, decimal(100)]);
    lemma_join_six(t);
    lemma_half_bar(pos);
    assert(layout_at(s, v, answers, total, last_pass(s.template) + 1, 0).stop is Running);
    assert(joined(t) =~= "["@ + repeat_text("="@, pos / 2) + repeat_text("-"@, (50 - pos / 2) as nat) + "] "@ + decimal(pos)
        + "/"@ + decimal(100));
}


/// The parts of the template `[{bar:50}] {pos}/{len}`.
pub open spec fn simple_bar_parts() -> Seq<PartView> {
    seq![
        PartView::Literal("["@),
        PartView::Placeholder(bare_placeholder(1, "bar"@, Some(WidthPrecisionSpec::Absolute(50)))),
        PartView::Literal("] "@),
        PartView::Placeholder(bare_placeholder(3, "pos"@, None)),
        PartView::Literal("/"@),
        PartView::Placeholder(bare_placeholder(5, "len"@, None)),
    ]
}

proof fn lemma_simple_bar_parse()
    ensures
        parse_outcome(template_config(), "[{bar:50}] {pos}/{len}"@) == ParseOutcome::Parsed(simple_bar_parts()),
{
    reveal_strlit("[{bar:50}] {pos}/{len}");
    reveal_strlit("[");
    reveal_strlit("] ");
    reveal_strlit("/");
    reveal_strlit("bar");
    reveal_strlit("pos");
    reveal_strlit("len");
    reveal_with_fuel(crate::format::parser::run, 30);
    let r = parse_outcome(template_config(), "[{bar:50}] {pos}/{len}"@);
    assert(r is Parsed);
    let ps = r->Parsed_0;
    assert(ps =~~= simple_bar_parts());
}


proof fn lemma_simple_bar_template()
    ensures
        template_outcome("[{bar:50}] {pos}/{len}"@) == TemplateOutcome::Parsed(simple_bar_items()),
{
    lemma_simple_bar_parse();
    reveal_strlit("bar");
    reveal_strlit("pos");
    reveal_strlit("len");
    reveal_strlit("msg");
    reveal_strlit("message");
    reveal_strlit("description");
    reveal_strlit("prefix");
    reveal_strlit("percent");
    reveal_strlit("position");
    reveal_strlit("length");
    reveal_strlit("total");
    reveal_strlit("pad");
    reveal_strlit("padding");
    reveal_strlit("rate");
    reveal_strlit("elapsed");
    reveal_strlit("elapsed_time");
    reveal_strlit("remaining");
    reveal_strlit("remaining_time");
    reveal_strlit("progress_bar");
    assert("bar"@[0] != "msg"@[0] && "bar"@[0] != "pos"@[0] && "bar"@[0] != "len"@[0] && "bar"@[0] != "pad"@[0]);
    assert("pos"@[0] != "msg"@[0] && "pos"@[1] != "pad"@[1]);
    assert("len"@[0] != "msg"@[0] && "len"@[0] != "pos"@[0] && "len"@[0] != "pad"@[0]);
    assert(crate::template::key_of("bar"@) == KeyView::Bar);
    assert(crate::template::key_of("pos"@) == KeyView::Position);
    assert(crate::template::key_of("len"@) == KeyView::Total);
    let items = simple_bar_parts().map_values(|p: PartView| crate::template::item_of(p));
    assert(items =~~= simple_bar_items());
}


/// Law: with no answer from the formatter and no `@` arguments, the elapsed
/// time shows the elapsed duration in human form and the remaining time
/// (where the bar has a total) the remaining duration; whatever the `@`
/// arguments, what the remaining time shows does not depend on the elapsed
/// duration, nor the elapsed time on the remaining one.
pub proof fn law_time_keys_show_their_durations(
    s: StyleView,
    v: ValuesView,
    p: PlaceholderView,
    total: nat,
    avail: nat,
    other: Duration,
)
    ensures
        p.extra_args is None ==> placeholder_text(s, v, KeyView::ElapsedTime, p, None, total, avail) == Rendered::Text(
            painted(p.ansi_style, human_duration(v.elapsed.secs as nat), v.colors),
        ),
        p.extra_args is None && v.total is Some ==> placeholder_text(s, v, KeyView::RemainingTime, p, None, total, avail)
            == Rendered::Text(painted(p.ansi_style, human_duration(v.remaining.secs as nat), v.colors)),
        placeholder_text(s, ValuesView { elapsed: other, ..v }, KeyView::RemainingTime, p, None, total, avail)
            == placeholder_text(s, v, KeyView::RemainingTime, p, None, total, avail),
        placeholder_text(s, ValuesView { remaining: other, ..v }, KeyView::ElapsedTime, p, None, total, avail)
            == placeholder_text(s, v, KeyView::ElapsedTime, p, None, total, avail),
{
}


/// Law: with no answer from the formatter and no `@` arguments, the position
/// shows the bar's position and the total (where the bar has one) its
/// total, each as a number under the placeholder's format.
pub proof fn law_counts_show_their_values(
    s: StyleView,
    v: ValuesView,
    p: PlaceholderView,
    total: nat,
    avail: nat,
)
    requires
        p.extra_args is None,
    ensures
        placeholder_text(s, v, KeyView::Position, p, None, total, avail) == Rendered::Text(
            painted(p.ansi_style, display_uint(format_spec_of(p, total as int, avail as int), v.position as nat), v.colors),
        ),
        v.total is Some ==> placeholder_text(s, v, KeyView::Total, p, None, total, avail) == Rendered::Text(
            painted(
                p.ansi_style,
                display_uint(format_spec_of(p, total as int, avail as int), v.total.unwrap() as nat),
                v.colors,
            ),
        ),
        v.total is None ==> placeholder_text(s, v, KeyView::Total, p, None, total, avail) == Rendered::Text(
            painted(p.ansi_style, Seq::empty(), v.colors),
        ),
{
}

} // verus!
