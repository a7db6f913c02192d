//! Rendering one line of a progress bar from its style and its values.
use vstd::prelude::*;
use crate::external::ansi_styled;
use crate::external::measure_text_width;
use crate::external::styled_text;
use crate::external::text_width;
use crate::format::byte_size::ByteSize;
use crate::format::byte_size::ByteSizeConfig;
use crate::format::byte_size::Scale;
use crate::format::byte_size::byte_size_display;
use crate::format::byte_size::in_range;
use crate::format::duration::Duration;
use crate::format::duration::DurationFormatter;
use crate::format::duration::FormatterOutcome;
use crate::format::duration::duration_pieces;
use crate::format::duration::formatter_outcome;
use crate::format::duration::human_duration;
use crate::format::duration::styled_output;
use crate::style::Style;
use crate::format::parser::TemplatePart;
use crate::format::parser::PartView;
use crate::format::parser::PlaceholderView;
use crate::format::parser::format_spec_of;
use crate::format::parser::placeholder_format;
use crate::format::parser::placeholder_resolves;
use crate::format::parser::resolves_within;
use crate::format::parser::WidthPrecisionSpec;
use crate::format::parser::wps_number;
use crate::format::parser::lemma_resolves_fewer;
use crate::template::FmtItem;
use crate::template::ItemView;
use crate::template::KeyView;
use crate::template::PlaceholderKey;
use crate::style::StyleView;
use crate::text::FormatSpec;
use crate::text::display_str;
use crate::text::display_uint;
use crate::text::push_display_str;
use crate::text::push_display_uint;
use crate::text::str_equals;
use crate::text::chars_of;
use crate::text::string_from_chars;
use crate::text::repeat_char;

verus! {

/// The values of a bar that a render reads besides its style. Those that
/// rest on floating point (the remaining time, the rate) come computed.
pub struct BarValues {
    pub message: String,
    pub prefix: String,
    pub position: u64,
    pub total: Option<u64>,
    pub ticks: u64,
    pub elapsed: Duration,
    pub remaining: Duration,
    pub rate: u64,
    pub colors: bool,
}

/// The values of a bar as plain values.
pub struct ValuesView {
    pub message: Seq<char>,
    pub prefix: Seq<char>,
    pub position: u64,
    pub total: Option<u64>,
    pub ticks: u64,
    pub elapsed: Duration,
    pub remaining: Duration,
    pub rate: u64,
    pub colors: bool,
}

impl View for BarValues {
    type V = ValuesView;

    open spec fn view(&self) -> ValuesView {
        ValuesView {
            message: self.message@,
            prefix: self.prefix@,
            position: self.position,
            total: self.total,
            ticks: self.ticks,
            elapsed: self.elapsed,
            remaining: self.remaining,
            rate: self.rate,
            colors: self.colors,
        }
    }
}

/// What rendering a piece gives: its text, a formatting error (the line is
/// then not written), or a panic of the renderer.
pub enum Rendered {
    Text(Seq<char>),
    Failed,
    Panicked,
}

/// A rendered piece.
pub enum PieceText {
    Text(String),
    Failed,
    Panicked,
}

impl View for PieceText {
    type V = Rendered;

    open spec fn view(&self) -> Rendered {
        match self {
            PieceText::Text(s) => Rendered::Text(s@),
            PieceText::Failed => Rendered::Failed,
            PieceText::Panicked => Rendered::Panicked,
        }
    }
}

/// The `@` arguments that show a number as binary byte units.
pub open spec fn binary_units(a: Seq<char>) -> bool {
    a == "byte"@ || a == "bytes"@ || a == "bin"@ || a == "binary"@ || a == "bin_bytes"@ || a == "binary_bytes"@
}

/// The `@` arguments that show a number as decimal byte units.
pub open spec fn decimal_units(a: Seq<char>) -> bool {
    a == "dec"@ || a == "decimal"@ || a == "dec_bytes"@ || a == "decimal_bytes"@
}

/// The byte units a number is shown in: `i` and a space unless `#` is given.
pub open spec fn units_config(n: u64, scale: Scale, alt: bool) -> ByteSizeConfig {
    ByteSizeConfig { bytes: n, scale, space: !alt, ibibytes: !alt, b_suffix: true, uppercase_k: false }
}

/// A number shown under `f`: as an integer, or in byte units where the `@`
/// arguments ask for them. Other arguments, and counts beyond the unit
/// table, panic.
pub open spec fn numeric_text(args: Option<Seq<char>>, alt: bool, n: u64, f: FormatSpec) -> Rendered {
    match args {
        None => Rendered::Text(display_uint(f, n as nat)),
        Some(a) => if binary_units(a) || decimal_units(a) {
            let c = units_config(n, if binary_units(a) { Scale::Binary } else { Scale::Decimal }, alt);
            if in_range(c) {
                Rendered::Text(byte_size_display(c, f))
            } else {
                Rendered::Panicked
            }
        } else {
            Rendered::Panicked
        },
    }
}

/// A duration shown in human form, or through a duration formatter built
/// from the `@` arguments; a template that does not build is a formatting
/// error, and one the parser gives up on panics.
pub open spec fn duration_text(args: Option<Seq<char>>, d: Duration, colors: bool) -> Rendered {
    match args {
        None => Rendered::Text(human_duration(d.secs as nat)),
        Some(t) => if t.len() == 0 {
            Rendered::Text(human_duration(d.secs as nat))
        } else {
            match formatter_outcome(t) {
                FormatterOutcome::Built(ps) => Rendered::Text(styled_output(duration_pieces(ps, d), colors)),
                FormatterOutcome::Failed(_, _) => Rendered::Failed,
                FormatterOutcome::Aborted => Rendered::Panicked,
            }
        },
    }
}

/// Whether the `@` arguments ask for byte units, and which.
fn units_of(a: &str) -> (r: Option<Scale>)
    ensures
        binary_units(a@) ==> r == Some(Scale::Binary),
        !binary_units(a@) && decimal_units(a@) ==> r == Some(Scale::Decimal),
        !binary_units(a@) && !decimal_units(a@) ==> r is None,
{
    if str_equals(a, "byte") || str_equals(a, "bytes") || str_equals(a, "bin") || str_equals(a, "binary")
        || str_equals(a, "bin_bytes") || str_equals(a, "binary_bytes") {
        Some(Scale::Binary)
    } else if str_equals(a, "dec") || str_equals(a, "decimal") || str_equals(a, "dec_bytes") || str_equals(
        a,
        "decimal_bytes",
    ) {
        Some(Scale::Decimal)
    } else {
        None
    }
}

/// A number as a placeholder shows it.
pub fn numeric_piece(args: &Option<String>, alt: bool, n: u64, f: &FormatSpec) -> (r: PieceText)
    ensures
        r@ == numeric_text(match args { Some(a) => Some(a@), None => None }, alt, n, *f),
{
    match args {
        None => {
            let mut out: Vec<char> = Vec::new();
            push_display_uint(&mut out, f, n);
            assert(out@ =~= display_uint(*f, n as nat));
            PieceText::Text(string_from_chars(out.as_slice()))
        },
        Some(a) => match units_of(a.as_str()) {
            Some(scale) => {
                let c = ByteSize(n).custom().with_scale(scale).with_ibibytes(!alt).with_space(!alt);
                assert(c@ == units_config(n, scale, alt));
                if c.has_prefix() {
                    PieceText::Text(c.format_with(f))
                } else {
                    PieceText::Panicked
                }
            },
            None => PieceText::Panicked,
        },
    }
}

/// A duration as a placeholder shows it.
pub fn duration_piece(args: &Option<String>, d: Duration, colors: bool) -> (r: PieceText)
    ensures
        r@ == duration_text(match args { Some(a) => Some(a@), None => None }, d, colors),
{
    match args {
        None => PieceText::Text(d.to_string()),
        Some(t) => {
            if t.as_str().unicode_len() == 0 {
                PieceText::Text(d.to_string())
            } else {
                match DurationFormatter::try_new(t.as_str()) {
                    Some(Ok(df)) => PieceText::Text(df.format_into(d, colors)),
                    Some(Err(_)) => PieceText::Failed,
                    None => PieceText::Panicked,
                }
            }
        },
    }
}


/// `t` written `n` times.
pub open spec fn repeat_text(t: Seq<char>, n: nat) -> Seq<char>
    decreases n,
{
    if n == 0 { Seq::empty() } else { repeat_text(t, (n - 1) as nat) + t }
}

/// The width of a bar: its own width where one is given, at most the width
/// still available.
pub open spec fn bar_width_of(f: FormatSpec, avail: nat) -> nat {
    match f.width {
        Some(w) => if (w as nat) < avail { w as nat } else { avail },
        None => avail,
    }
}

/// The number of filled cells of a bar `w` cells wide at `pos` of `len`:
/// `pos / len` of the width (all of it for a zero length or a position past
/// the end), plus 1e-7, rounded down.
pub open spec fn filled_cells(pos: nat, len: nat, w: nat) -> nat {
    if len == 0 {
        w
    } else {
        let x = (if pos < len { pos } else { len }) * w;
        if (x % len) * 10000000 >= len * 9999999 { x / len + 1 } else { x / len }
    }
}

/// How much of the partial cell is still empty, in `len`ths: all of it when
/// the filled count was rounded up.
pub open spec fn empty_share(pos: nat, len: nat, w: nat) -> nat {
    let x = (if pos < len { pos } else { len }) * w;
    if (x % len) * 10000000 >= len * 9999999 { len } else { (len - x % len) as nat }
}

/// `a / b` rounded to the nearest whole number, halves up.
pub open spec fn half_up(a: nat, b: nat) -> nat {
    a / b + (if 2 * (a % b) >= b { 1nat } else { 0nat })
}

/// Which of the `k` partial characters shows the partial cell: the empty
/// share times `k`, less one, rounded (never below 0 nor past the last).
pub open spec fn partial_index(pos: nat, len: nat, w: nat, k: nat) -> nat {
    let n = half_up(k * empty_share(pos, len, w), len);
    let i = if n >= 1 { (n - 1) as nat } else { 0nat };
    if i < k - 1 { i } else { (k - 1) as nat }
}

/// A bar with a length: filled cells, the partial cell, and empty cells,
/// `w` cells in all.
pub open spec fn bounded_bar(chars: Seq<Seq<char>>, pos: nat, len: nat, w: nat) -> Seq<char> {
    let whole = filled_cells(pos, len, w);
    if whole < w {
        repeat_text(chars[0], whole) + chars[1 + partial_index(pos, len, w, (chars.len() - 1) as nat) as int]
            + repeat_text(chars.last(), (w - whole - 1) as nat)
    } else {
        repeat_text(chars[0], whole)
    }
}

/// A bar without a length: the bouncer moving back and forth with the
/// ticks, or spaces where it does not fit. A bouncer exactly as wide as the
/// bar has no room to move, and the renderer panics on it.
pub open spec fn bouncing_bar(bouncer: Seq<char>, bw: nat, ticks: u64, w: nat) -> Rendered {
    if w < bw {
        Rendered::Text(repeat_char(' ', w))
    } else {
        let room = (w - bw) as nat;
        if room == 0 {
            Rendered::Panicked
        } else {
            let p0 = ((ticks as usize) as nat) % (2 * room);
            let p = if p0 > room { (2 * room - p0) as nat } else { p0 };
            Rendered::Text(repeat_char(' ', p) + bouncer + repeat_char(' ', (w - p - bw) as nat))
        }
    }
}

/// The bar of a style at the values' position, `w` cells wide.
pub open spec fn bar_text(s: StyleView, v: ValuesView, w: nat) -> Rendered {
    if w == 0 {
        Rendered::Text(Seq::empty())
    } else {
        match v.total {
            Some(len) => Rendered::Text(bounded_bar(s.progress_bar_chars, v.position as nat, len as nat, w)),
            None => bouncing_bar(s.bouncer_chars, s.bouncer_char_width, v.ticks, w),
        }
    }
}

/// The spinner frame the ticks point at, shown under `f`.
pub open spec fn spinner_text(s: StyleView, v: ValuesView, f: FormatSpec) -> Seq<char> {
    display_str(f, s.spinner_chars[(((v.ticks as usize) as nat) % s.spinner_chars.len()) as int])
}

/// Appends `t` to `out` `n` times.
fn push_times(out: &mut String, t: &str, n: usize)
    ensures
        final(out)@ == old(out)@ + repeat_text(t@, n as nat),
{
    let mut i: usize = 0;
    while i < n
        invariant
            i <= n,
            out@ == old(out)@ + repeat_text(t@, i as nat),
        decreases n - i,
    {
        out.append(t);
        i = i + 1;
        assert(out@ =~= old(out)@ + repeat_text(t@, i as nat));
    }
}

/// Appends `n` spaces to `out`.
fn push_spaces(out: &mut String, n: usize)
    ensures
        final(out)@ == old(out)@ + repeat_char(' ', n as nat),
{
    let mut i: usize = 0;
    while i < n
        invariant
            i <= n,
            out@ == old(out)@ + repeat_char(' ', i as nat),
        decreases n - i,
    {
        out.append(" ");
        proof {
            reveal_strlit(" ");
        }
        i = i + 1;
        assert(out@ =~= old(out)@ + repeat_char(' ', i as nat));
    }
}

proof fn lemma_mul_bound(a: nat, b: nat, c: nat, d: nat)
    by (nonlinear_arith)
    requires
        a <= c,
        b <= d,
    ensures
        a * b <= c * d,
{
}

proof fn lemma_div_le(x: nat, len: nat, w: nat)
    by (nonlinear_arith)
    requires
        len > 0,
        x <= len * w,
    ensures
        x / len <= w,
        x % len > 0 ==> x / len < w,
{
}

/// The filled count and the empty share of a bar with a nonzero length.
fn fill_counts(pos: u64, len: u64, w: usize) -> (r: (usize, u128))
    requires
        len > 0,
    ensures
        r.0 as nat == filled_cells(pos as nat, len as nat, w as nat),
        r.1 as nat == empty_share(pos as nat, len as nat, w as nat),
        r.1 <= len,
{
    let p: u64 = if pos < len { pos } else { len };
    proof {
        lemma_mul_bound(p as nat, w as nat, u64::MAX as nat, usize::MAX as nat);
        lemma_mul_bound(p as nat, w as nat, len as nat, w as nat);
    }
    let x: u128 = (p as u128) * (w as u128);
    proof {
        lemma_div_le(x as nat, len as nat, w as nat);
    }
    let q: u128 = x / (len as u128);
    let rem: u128 = x % (len as u128);
    if rem * 10000000 >= (len as u128) * 9999999 {
        (q as usize + 1, len as u128)
    } else {
        (q as usize, (len as u128) - rem)
    }
}

/// The index of the partial character among `k` of them.
fn partial_choice(share: u128, len: u64, k: usize) -> (r: usize)
    requires
        len > 0,
        k >= 1,
        share <= len,
    ensures
        r as nat == (if k == 1 { 0nat } else {
            let n = half_up(k as nat * share as nat, len as nat);
            let i = if n >= 1 { (n - 1) as nat } else { 0nat };
            if i < k - 1 { i } else { (k - 1) as nat }
        }),
        r < k,
{
    if k == 1 {
        0
    } else {
        proof {
            lemma_mul_bound(k as nat, share as nat, usize::MAX as nat, u64::MAX as nat);
        }
        let a: u128 = (k as u128) * share;
        let n: u128 = a / (len as u128) + if 2 * (a % (len as u128)) >= (len as u128) { 1 } else { 0 };
        let i: u128 = if n >= 1 { n - 1 } else { 0 };
        if i < (k - 1) as u128 { i as usize } else { k - 1 }
    }
}

/// A bar with a length, `w` cells wide.
fn bounded_piece(style: &Style, pos: u64, len: u64, w: usize) -> (r: String)
    ensures
        r@ == bounded_bar(style@.progress_bar_chars, pos as nat, len as nat, w as nat),
{
    let (_, nchars) = style.frame_counts();
    let ghost chars = style@.progress_bar_chars;
    let (whole, share): (usize, u128) = if len == 0 { (w, 0) } else { fill_counts(pos, len, w) };
    let mut out = String::new();
    push_times(&mut out, style.bar_char(0).as_str(), whole);
    if whole < w {
        let k: usize = nchars - 1;
        let idx = partial_choice(share, len, k);
        assert(idx as nat == partial_index(pos as nat, len as nat, w as nat, k as nat));
        out.append(style.bar_char(1 + idx).as_str());
        push_times(&mut out, style.bar_char(nchars - 1).as_str(), w - whole - 1);
        assert(out@ =~= bounded_bar(chars, pos as nat, len as nat, w as nat));
    } else {
        assert(out@ =~= bounded_bar(chars, pos as nat, len as nat, w as nat));
    }
    out
}

/// A bar without a length, `w` cells wide.
fn bouncing_piece(style: &Style, ticks: u64, w: usize) -> (r: PieceText)
    ensures
        r@ == bouncing_bar(style@.bouncer_chars, style@.bouncer_char_width, ticks, w as nat),
{
    let (bouncer, bw) = style.bouncer();
    if w < bw {
        let mut out = String::new();
        push_spaces(&mut out, w);
        assert(out@ =~= repeat_char(' ', w as nat));
        PieceText::Text(out)
    } else {
        let room = w - bw;
        if room == 0 {
            PieceText::Panicked
        } else {
            let p0: u128 = ((ticks as usize) as u128) % (2 * (room as u128));
            let p: usize = if p0 > room as u128 { (2 * (room as u128) - p0) as usize } else { p0 as usize };
            let mut out = String::new();
            push_spaces(&mut out, p);
            out.append(bouncer.as_str());
            push_spaces(&mut out, w - p - bw);
            assert(out@ =~= repeat_char(' ', p as nat) + bouncer@ + repeat_char(' ', (w - p - bw) as nat));
            PieceText::Text(out)
        }
    }
}

/// The bar of a style at the values' position, `w` cells wide.
fn bar_piece(style: &Style, v: &BarValues, w: usize) -> (r: PieceText)
    ensures
        r@ == bar_text(style@, v@, w as nat),
{
    if w == 0 {
        return PieceText::Text(String::new());
    }
    match v.total {
        Some(len) => PieceText::Text(bounded_piece(style, v.position, len, w)),
        None => bouncing_piece(style, v.ticks, w),
    }
}

/// The spinner frame the ticks point at, shown under `f`.
fn spinner_piece(style: &Style, v: &BarValues, f: &FormatSpec) -> (r: String)
    ensures
        r@ == spinner_text(style@, v@, *f),
{
    let (n, _) = style.frame_counts();
    let frame = style.spinner_frame((v.ticks as usize) % n);
    let chars = chars_of(frame.as_str());
    let mut out: Vec<char> = Vec::new();
    push_display_str(&mut out, f, chars.as_slice());
    assert(out@ =~= spinner_text(style@, v@, *f));
    string_from_chars(out.as_slice())
}


/// The text of a quoted key, `'text'`, which shows as it is.
pub open spec fn quoted_text(k: Seq<char>) -> Option<Seq<char>> {
    if k.len() >= 2 && k[0] == '\'' && k[k.len() - 1] == '\'' {
        Some(k.subrange(1, k.len() - 1))
    } else {
        None
    }
}

/// What a placeholder shows by itself, under the options `f` with `avail`
/// columns left. The percentage and the plain rate are floating-point
/// values that the formatter supplies; without it they show nothing. A
/// custom key that is not quoted has no text of its own, and the renderer
/// panics on it.
pub open spec fn builtin_text(
    s: StyleView,
    v: ValuesView,
    key: KeyView,
    p: PlaceholderView,
    f: FormatSpec,
    avail: nat,
) -> Rendered {
    match key {
        KeyView::Message => Rendered::Text(display_str(f, v.message)),
        KeyView::Prefix => Rendered::Text(display_str(f, v.prefix)),
        KeyView::Padding => Rendered::Text(display_str(f, Seq::empty())),
        KeyView::Percent => Rendered::Text(Seq::empty()),
        KeyView::Position => numeric_text(p.extra_args, p.alt, v.position, f),
        KeyView::Total => match v.total {
            Some(t) => numeric_text(p.extra_args, p.alt, t, f),
            None => Rendered::Text(Seq::empty()),
        },
        KeyView::Rate => match p.extra_args {
            None => Rendered::Text(Seq::empty()),
            Some(_) => numeric_text(p.extra_args, p.alt, v.rate, f),
        },
        KeyView::ElapsedTime => duration_text(p.extra_args, v.elapsed, v.colors),
        KeyView::RemainingTime => match v.total {
            Some(_) => duration_text(p.extra_args, v.remaining, v.colors),
            None => Rendered::Text(Seq::empty()),
        },
        KeyView::Bar => bar_text(s, v, bar_width_of(f, avail)),
        KeyView::Spinner => Rendered::Text(spinner_text(s, v, f)),
        KeyView::Custom(k) => match quoted_text(k) {
            Some(t) => Rendered::Text(display_str(f, t)),
            None => Rendered::Panicked,
        },
    }
}

/// A text painted in the placeholder's `$` style, when colours are on and
/// the style says anything.
pub open spec fn painted(style: Option<Seq<char>>, t: Seq<char>, colors: bool) -> Seq<char> {
    match style {
        Some(st) => if colors && st.len() > 0 { ansi_styled(st, t, true) } else { t },
        None => t,
    }
}

/// What a placeholder shows with `avail` of `total` columns left: the
/// formatter's answer where it gave one, else its own text; painted in its
/// style.
pub open spec fn placeholder_text(
    s: StyleView,
    v: ValuesView,
    key: KeyView,
    p: PlaceholderView,
    answer: Option<Seq<char>>,
    total: nat,
    avail: nat,
) -> Rendered {
    let f = format_spec_of(p, total as int, avail as int);
    let base = match answer {
        Some(t) => Rendered::Text(t),
        None => builtin_text(s, v, key, p, f, avail),
    };
    match base {
        Rendered::Text(t) => Rendered::Text(painted(p.ansi_style, t, v.colors)),
        Rendered::Failed => Rendered::Failed,
        Rendered::Panicked => Rendered::Panicked,
    }
}

/// Whether an item's width and precision resolve against `cols` columns
/// within the machine's integers.
pub open spec fn item_resolves(item: ItemView, cols: int) -> bool {
    match item {
        ItemView::Placeholder(_, p) => placeholder_resolves(p, cols),
        ItemView::Literal(_) => true,
    }
}

/// Whether every item of a template resolves against `cols` columns.
pub open spec fn template_resolves(items: Seq<ItemView>, cols: int) -> bool {
    forall|i: int| 0 <= i < items.len() ==> item_resolves(#[trigger] items[i], cols)
}

/// What a template item shows: a literal its text, a placeholder as above.
pub open spec fn item_text(
    s: StyleView,
    v: ValuesView,
    item: ItemView,
    answer: Option<Seq<char>>,
    total: nat,
    avail: nat,
) -> Rendered {
    match item {
        ItemView::Literal(t) => Rendered::Text(t),
        ItemView::Placeholder(key, p) => placeholder_text(s, v, key, p, answer, total, avail),
    }
}

pub open spec fn opt_text(a: Option<String>) -> Option<Seq<char>> {
    match a {
        Some(t) => Some(t@),
        None => None,
    }
}

/// A string shown under `f`.
fn display_piece(f: &FormatSpec, t: &str) -> (r: String)
    ensures
        r@ == display_str(*f, t@),
{
    let chars = chars_of(t);
    let mut out: Vec<char> = Vec::new();
    push_display_str(&mut out, f, chars.as_slice());
    assert(out@ =~= display_str(*f, t@));
    string_from_chars(out.as_slice())
}

/// The text of a quoted key.
fn quoted_piece(k: &str) -> (r: Option<String>)
    ensures
        opt_text(r) == quoted_text(k@),
{
    let chars = chars_of(k);
    let n = chars.len();
    if n >= 2 && chars[0] == '\'' && chars[n - 1] == '\'' {
        let mut inner: Vec<char> = Vec::new();
        let mut i: usize = 1;
        while i < n - 1
            invariant
                1 <= i <= n - 1,
                n == chars@.len(),
                chars@ == k@,
                inner@ == k@.subrange(1, i as int),
            decreases n - 1 - i,
        {
            inner.push(chars[i]);
            i = i + 1;
            assert(inner@ =~= k@.subrange(1, i as int));
        }
        Some(string_from_chars(inner.as_slice()))
    } else {
        None
    }
}

/// What a placeholder shows by itself.
fn builtin_piece(
    style: &Style,
    v: &BarValues,
    key: &PlaceholderKey,
    part: &TemplatePart,
    f: &FormatSpec,
    avail: usize,
) -> (r: PieceText)
    requires
        part is Placeholder,
    ensures
        part@ matches PartView::Placeholder(p) && r@ == builtin_text(style@, v@, key@, p, *f, avail as nat),
{
    let (args, alt) = match part {
        TemplatePart::Placeholder { extra_args, alt, .. } => (extra_args, *alt),
        TemplatePart::Literal(_) => {
            assert(false);
            return PieceText::Failed;
        },
    };
    match key {
        PlaceholderKey::Message => PieceText::Text(display_piece(f, v.message.as_str())),
        PlaceholderKey::Prefix => PieceText::Text(display_piece(f, v.prefix.as_str())),
        PlaceholderKey::Padding => {
            let r = display_piece(f, "");
            proof {
                reveal_strlit("");
                assert(""@ =~= Seq::<char>::empty());
            }
            PieceText::Text(r)
        },
        PlaceholderKey::Percent => PieceText::Text(String::new()),
        PlaceholderKey::Position => numeric_piece(args, alt, v.position, f),
        PlaceholderKey::Total => match v.total {
            Some(t) => numeric_piece(args, alt, t, f),
            None => PieceText::Text(String::new()),
        },
        PlaceholderKey::Rate => match args {
            Some(_) => numeric_piece(args, alt, v.rate, f),
            None => PieceText::Text(String::new()),
        },
        PlaceholderKey::ElapsedTime => duration_piece(args, v.elapsed, v.colors),
        PlaceholderKey::RemainingTime => match v.total {
            Some(_) => duration_piece(args, v.remaining, v.colors),
            None => PieceText::Text(String::new()),
        },
        PlaceholderKey::Bar => {
            let w: usize = match f.width {
                Some(w) => if w < avail { w } else { avail },
                None => avail,
            };
            bar_piece(style, v, w)
        },
        PlaceholderKey::Spinner => PieceText::Text(spinner_piece(style, v, f)),
        PlaceholderKey::Custom(k) => match quoted_piece(k.as_str()) {
            Some(t) => PieceText::Text(display_piece(f, t.as_str())),
            None => PieceText::Panicked,
        },
    }
}

/// A text painted in a placeholder's `$` style.
fn paint(style: &Option<String>, t: String, colors: bool) -> (r: String)
    ensures
        r@ == painted(opt_text(*style), t@, colors),
{
    match style {
        Some(st) => {
            if colors && st.as_str().unicode_len() > 0 {
                styled_text(st.as_str(), t.as_str(), true)
            } else {
                t
            }
        },
        None => t,
    }
}

/// What a template item shows with `avail` of `total` columns left, given
/// the formatter's answer for it.
pub fn render_item(
    style: &Style,
    v: &BarValues,
    item: &FmtItem,
    answer: Option<String>,
    total: usize,
    avail: usize,
) -> (r: PieceText)
    requires
        item_resolves(item@, total as int),
        avail <= total,
    ensures
        r@ == item_text(style@, v@, item@, opt_text(answer), total as nat, avail as nat),
{
    match item {
        FmtItem::Literal(t) => PieceText::Text(t.clone()),
        FmtItem::Placeholder { key, part } => match part {
            TemplatePart::Literal(t) => PieceText::Text(t.clone()),
            TemplatePart::Placeholder { ansi_style, .. } => {
                proof {
                    if let PartView::Placeholder(p) = part@ {
                        lemma_resolves_fewer(p, total as int, avail as int);
                    }
                }
                let f = placeholder_format(part, total, avail);
                let base = match answer {
                    Some(t) => PieceText::Text(t),
                    None => builtin_piece(style, v, key, part, &f, avail),
                };
                match base {
                    PieceText::Text(t) => PieceText::Text(paint(ansi_style, t, v.colors)),
                    PieceText::Failed => PieceText::Failed,
                    PieceText::Panicked => PieceText::Panicked,
                }
            },
        },
    }
}


/// Something a bar's style can consult for the text of a placeholder before
/// its own rendering: the text, or `None` to leave it to the renderer. It is
/// asked for every placeholder (built-in keys too), in rendering order,
/// with the key, the `@` arguments, the resolved options and the columns
/// still available. The percentage and the plain rate come from it too.
pub trait PlaceholderFormatter {
    fn format(&self, key: &PlaceholderKey, extra_args: &Option<String>, spec: &FormatSpec, avail_width: usize) -> Option<String>;
}

/// How far a line's layout has gone.
pub enum Stop {
    Running,
    Failed,
    Panicked,
}

/// The texts of the items laid out so far, the columns still available,
/// and whether the layout stopped.
pub struct Layout {
    pub texts: Seq<Seq<char>>,
    pub avail: nat,
    pub stop: Stop,
}

/// The pass in which an item is rendered: literals in the first, each
/// placeholder after as many passes as it has `!` marks.
pub open spec fn item_pass(item: ItemView) -> nat {
    match item {
        ItemView::Literal(_) => 0,
        ItemView::Placeholder(_, p) => p.deferred as nat,
    }
}

/// The last pass any of the items needs.
pub open spec fn last_pass(items: Seq<ItemView>) -> nat
    decreases items.len(),
{
    if items.len() == 0 {
        0
    } else {
        let m = last_pass(items.drop_last());
        let p = item_pass(items.last());
        if p > m { p } else { m }
    }
}

/// `a - b`, or 0 where `b` is larger.
pub open spec fn sat_sub(a: nat, b: nat) -> nat {
    if b <= a { (a - b) as nat } else { 0 }
}

/// Before anything is rendered: all texts empty and the whole width free.
pub open spec fn layout_start(n: nat, total: nat) -> Layout {
    Layout { texts: Seq::new(n, |_i: int| Seq::<char>::empty()), avail: total, stop: Stop::Running }
}

/// One item visited in pass `pass`: rendered (with the columns still free)
/// if this is its pass, its width then taken from the free columns.
pub open spec fn layout_step(
    s: StyleView,
    v: ValuesView,
    answers: Seq<Option<Seq<char>>>,
    total: nat,
    st: Layout,
    pass: nat,
    i: int,
) -> Layout {
    if !(st.stop is Running) || item_pass(s.template[i]) != pass {
        st
    } else {
        match item_text(s, v, s.template[i], answers[i], total, st.avail) {
            Rendered::Text(t) => Layout {
                texts: st.texts.update(i, t),
                avail: sat_sub(st.avail, text_width(t)),
                stop: Stop::Running,
            },
            Rendered::Failed => Layout { stop: Stop::Failed, ..st },
            Rendered::Panicked => Layout { stop: Stop::Panicked, ..st },
        }
    }
}

/// The layout once pass `pass` has visited the first `i` items.
pub open spec fn layout_at(
    s: StyleView,
    v: ValuesView,
    answers: Seq<Option<Seq<char>>>,
    total: nat,
    pass: nat,
    i: nat,
) -> Layout
    decreases pass, i,
{
    if i == 0 {
        if pass == 0 {
            layout_start(s.template.len(), total)
        } else {
            layout_at(s, v, answers, total, (pass - 1) as nat, s.template.len())
        }
    } else if i > s.template.len() {
        layout_at(s, v, answers, total, pass, s.template.len())
    } else {
        layout_step(s, v, answers, total, layout_at(s, v, answers, total, pass, (i - 1) as nat), pass, i - 1)
    }
}

/// The texts joined.
pub open spec fn joined(texts: Seq<Seq<char>>) -> Seq<char>
    decreases texts.len(),
{
    if texts.len() == 0 { Seq::empty() } else { joined(texts.drop_last()) + texts.last() }
}

/// What rendering a line gives: the line, no line (a formatting error), or
/// a panic.
pub enum LineResult {
    Line(Seq<char>),
    NoLine,
    Panic,
}

/// The line of a bar `total` columns wide, given what the formatter
/// answered for each item: the items are rendered pass by pass, each with
/// the columns that the items rendered before it left free, and the texts
/// are joined in template order.
pub open spec fn line_result(s: StyleView, v: ValuesView, total: nat, answers: Seq<Option<Seq<char>>>) -> LineResult {
    let st = layout_at(s, v, answers, total, last_pass(s.template) + 1, 0);
    match st.stop {
        Stop::Running => LineResult::Line(joined(st.texts)),
        Stop::Failed => LineResult::NoLine,
        Stop::Panicked => LineResult::Panic,
    }
}

/// A rendered line.
pub enum LineOutcome {
    Line(String),
    NoLine,
    Panic,
}

impl View for LineOutcome {
    type V = LineResult;

    open spec fn view(&self) -> LineResult {
        match self {
            LineOutcome::Line(s) => LineResult::Line(s@),
            LineOutcome::NoLine => LineResult::NoLine,
            LineOutcome::Panic => LineResult::Panic,
        }
    }
}

pub open spec fn answers_view(a: Seq<Option<String>>) -> Seq<Option<Seq<char>>> {
    a.map_values(|x: Option<String>| opt_text(x))
}

/// The items of a style's template are the given items.
pub open spec fn items_view_eq(items: Seq<FmtItem>, s: StyleView) -> bool {
    crate::template::items_view(items) == s.template
}

/// Whether item `j` is visited before item `i` of pass `pass`.
pub open spec fn visited_before(items: Seq<ItemView>, j: int, pass: nat, i: nat) -> bool {
    item_pass(items[j]) < pass || (item_pass(items[j]) == pass && j < i)
}

/// The layout up to a point reads the answers of the items visited before
/// it only.
proof fn lemma_layout_frame(
    s: StyleView,
    v: ValuesView,
    a: Seq<Option<Seq<char>>>,
    b: Seq<Option<Seq<char>>>,
    total: nat,
    pass: nat,
    i: nat,
)
    requires
        i <= s.template.len(),
        forall|j: int| 0 <= j < s.template.len() && visited_before(s.template, j, pass, i) ==> a[j] == b[j],
    ensures
        layout_at(s, v, a, total, pass, i) == layout_at(s, v, b, total, pass, i),
    decreases pass, i,
{
    if i == 0 {
        if pass > 0 {
            assert forall|j: int| 0 <= j < s.template.len() && visited_before(s.template, j, (pass - 1) as nat, s.template.len()) implies a[j] == b[j] by {
                assert(visited_before(s.template, j, pass, i));
            }
            lemma_layout_frame(s, v, a, b, total, (pass - 1) as nat, s.template.len());
        }
    } else {
        assert forall|j: int| 0 <= j < s.template.len() && visited_before(s.template, j, pass, (i - 1) as nat) implies a[j] == b[j] by {
            assert(visited_before(s.template, j, pass, i));
        }
        lemma_layout_frame(s, v, a, b, total, pass, (i - 1) as nat);
        if item_pass(s.template[i - 1]) == pass {
            assert(visited_before(s.template, i - 1, pass, i));
        }
    }
}

/// A stopped layout stays stopped.
proof fn lemma_stop_stays(
    s: StyleView,
    v: ValuesView,
    a: Seq<Option<Seq<char>>>,
    total: nat,
    pass: nat,
    i: nat,
    pass2: nat,
    i2: nat,
)
    requires
        i <= s.template.len(),
        i2 <= s.template.len(),
        pass < pass2 || (pass == pass2 && i <= i2),
        !(layout_at(s, v, a, total, pass, i).stop is Running),
    ensures
        layout_at(s, v, a, total, pass2, i2).stop == layout_at(s, v, a, total, pass, i).stop,
    decreases pass2, i2,
{
    if pass == pass2 && i == i2 {
    } else if i2 == 0 {
        lemma_stop_stays(s, v, a, total, pass, i, (pass2 - 1) as nat, s.template.len());
    } else {
        lemma_stop_stays(s, v, a, total, pass, i, pass2, (i2 - 1) as nat);
    }
}

/// The pass of an item.
fn pass_of(item: &FmtItem) -> (r: u16)
    ensures
        r as nat == item_pass(item@),
{
    match item {
        FmtItem::Literal(_) => 0,
        FmtItem::Placeholder { part, .. } => match part {
            TemplatePart::Placeholder { deferred, .. } => *deferred,
            TemplatePart::Literal(_) => 0,
        },
    }
}

/// The last pass the items need.
fn last_pass_of(items: &Vec<FmtItem>) -> (r: u16)
    ensures
        r as nat == last_pass(crate::template::items_view(items@)),
{
    let ghost iv = crate::template::items_view(items@);
    let mut m: u16 = 0;
    let mut i: usize = 0;
    assert(iv.take(0) =~= Seq::<ItemView>::empty());
    while i < items.len()
        invariant
            i <= items.len(),
            iv == crate::template::items_view(items@),
            m as nat == last_pass(iv.take(i as int)),
        decreases items.len() - i,
    {
        let p = pass_of(&items[i]);
        proof {
            assert(iv.take(i + 1).drop_last() =~= iv.take(i as int));
            assert(iv.take(i + 1).last() == items@[i as int]@);
        }
        if p > m {
            m = p;
        }
        i = i + 1;
    }
    assert(iv.take(i as int) =~= iv);
    m
}

fn clone_answer(a: &Option<String>) -> (r: Option<String>)
    ensures
        r == *a,
{
    match a {
        Some(t) => Some(t.clone()),
        None => None,
    }
}

/// What the formatter answered for an item with `avail` of `total`
/// columns free: a placeholder asks it with its key, its `@` arguments, its
/// options resolved against those columns, and the columns; any other item
/// has no answer.
pub open spec fn asked<F: PlaceholderFormatter>(
    formatter: F,
    item: FmtItem,
    total: nat,
    avail: nat,
    answer: Option<String>,
) -> bool {
    match item {
        FmtItem::Placeholder { key, part } => match part {
            TemplatePart::Placeholder { extra_args, .. } => match part@ {
                PartView::Placeholder(p) => call_ensures(
                    F::format,
                    (&formatter, &key, &extra_args, &format_spec_of(p, total as int, avail as int), avail as usize),
                    answer,
                ),
                PartView::Literal(_) => answer is None,
            },
            TemplatePart::Literal(_) => answer is None,
        },
        FmtItem::Literal(_) => answer is None,
    }
}

/// What the formatter answered for an item reached by a layout in state
/// `st`: what it was asked with the columns then free. An item the layout
/// never reached (it stopped before) has no answer.
pub open spec fn answered<F: PlaceholderFormatter>(
    formatter: F,
    item: FmtItem,
    total: nat,
    st: Layout,
    answer: Option<String>,
) -> bool {
    if st.stop is Running {
        asked(formatter, item, total, st.avail, answer)
    } else {
        answer is None
    }
}

/// The answers of a layout that has come to item `i` of pass `pass`: each
/// item visited so far answered as it was asked, the others none yet.
pub open spec fn answers_so_far<F: PlaceholderFormatter>(
    formatter: F,
    s: StyleView,
    items: Seq<FmtItem>,
    v: ValuesView,
    total: nat,
    a: Seq<Option<String>>,
    pass: nat,
    i: nat,
) -> bool {
    forall|j: int|
        #![trigger a[j]]
        0 <= j < a.len() ==> if visited_before(s.template, j, pass, i) {
            answered(
                formatter,
                items[j],
                total,
                layout_at(s, v, answers_view(a), total, item_pass(s.template[j]), j as nat),
                a[j],
            )
        } else {
            a[j] is None
        }
}

proof fn lemma_answers_frame(
    s: StyleView,
    v: ValuesView,
    a: Seq<Option<String>>,
    k: int,
    ans: Option<String>,
    total: nat,
    j: int,
)
    requires
        a.len() == s.template.len(),
        0 <= k < a.len(),
        0 <= j < a.len(),
        j != k,
        visited_before(s.template, j, item_pass(s.template[k]), k as nat),
    ensures
        layout_at(s, v, answers_view(a.update(k, ans)), total, item_pass(s.template[j]), j as nat) == layout_at(
            s,
            v,
            answers_view(a),
            total,
            item_pass(s.template[j]),
            j as nat,
        ),
{
    let b = answers_view(a.update(k, ans));
    let c = answers_view(a);
    assert forall|m: int| 0 <= m < s.template.len() && visited_before(s.template, m, item_pass(s.template[j]), j as nat) implies c[m] == b[m] by {
        if m == k {
            assert(false);
        }
    }
    lemma_layout_frame(s, v, c, b, total, item_pass(s.template[j]), j as nat);
}

proof fn lemma_answers_record<F: PlaceholderFormatter>(
    formatter: F,
    s: StyleView,
    items: Seq<FmtItem>,
    v: ValuesView,
    total: nat,
    a: Seq<Option<String>>,
    pass: nat,
    k: int,
    ans: Option<String>,
)
    requires
        a.len() == s.template.len(),
        items.len() == a.len(),
        0 <= k < a.len(),
        item_pass(s.template[k]) == pass,
        answers_so_far(formatter, s, items, v, total, a, pass, k as nat),
        layout_at(s, v, answers_view(a), total, pass, k as nat).stop is Running,
        asked(formatter, items[k], total, layout_at(s, v, answers_view(a), total, pass, k as nat).avail, ans),
    ensures
        answers_so_far(formatter, s, items, v, total, a.update(k, ans), pass, (k + 1) as nat),
        layout_at(s, v, answers_view(a.update(k, ans)), total, pass, k as nat) == layout_at(
            s,
            v,
            answers_view(a),
            total,
            pass,
            k as nat,
        ),
{
    let a2 = a.update(k, ans);
    let c = answers_view(a);
    let b = answers_view(a2);
    assert forall|m: int| 0 <= m < s.template.len() && visited_before(s.template, m, pass, k as nat) implies c[m] == b[m] by {
        if m == k {
            assert(false);
        }
    }
    lemma_layout_frame(s, v, c, b, total, pass, k as nat);
    assert forall|j: int| 0 <= j < a2.len() implies (if visited_before(s.template, j, pass, (k + 1) as nat) {
        answered(formatter, items[j], total, layout_at(s, v, answers_view(a2), total, item_pass(s.template[j]), j as nat), #[trigger] a2[j])
    } else {
        a2[j] is None
    }) by {
        if j == k {
            assert(a2[j] == ans);
        } else {
            assert(a2[j] == a[j]);
            if visited_before(s.template, j, pass, (k + 1) as nat) {
                assert(visited_before(s.template, j, pass, k as nat));
                lemma_answers_frame(s, v, a, k, ans, total, j);
            }
        }
    }
}

proof fn lemma_answers_skip<F: PlaceholderFormatter>(
    formatter: F,
    s: StyleView,
    items: Seq<FmtItem>,
    v: ValuesView,
    total: nat,
    a: Seq<Option<String>>,
    pass: nat,
    k: int,
)
    requires
        a.len() == s.template.len(),
        0 <= k < a.len(),
        item_pass(s.template[k]) != pass,
        answers_so_far(formatter, s, items, v, total, a, pass, k as nat),
    ensures
        answers_so_far(formatter, s, items, v, total, a, pass, (k + 1) as nat),
{
    assert forall|j: int| 0 <= j < a.len() implies (if visited_before(s.template, j, pass, (k + 1) as nat) {
        answered(formatter, items[j], total, layout_at(s, v, answers_view(a), total, item_pass(s.template[j]), j as nat), #[trigger] a[j])
    } else {
        a[j] is None
    }) by {
        assert(visited_before(s.template, j, pass, (k + 1) as nat) == visited_before(s.template, j, pass, k as nat));
    }
}

proof fn lemma_answers_next_pass<F: PlaceholderFormatter>(
    formatter: F,
    s: StyleView,
    items: Seq<FmtItem>,
    v: ValuesView,
    total: nat,
    a: Seq<Option<String>>,
    pass: nat,
)
    requires
        a.len() == s.template.len(),
        answers_so_far(formatter, s, items, v, total, a, pass, a.len()),
    ensures
        answers_so_far(formatter, s, items, v, total, a, pass + 1, 0),
{
    assert forall|j: int| 0 <= j < a.len() implies (if visited_before(s.template, j, pass + 1, 0) {
        answered(formatter, items[j], total, layout_at(s, v, answers_view(a), total, item_pass(s.template[j]), j as nat), #[trigger] a[j])
    } else {
        a[j] is None
    }) by {
        assert(visited_before(s.template, j, pass + 1, 0) == visited_before(s.template, j, pass, a.len()));
    }
}

proof fn lemma_pass_within_last(items: Seq<ItemView>, j: int)
    requires
        0 <= j < items.len(),
    ensures
        item_pass(items[j]) <= last_pass(items),
    decreases items.len(),
{
    if j < items.len() - 1 {
        lemma_pass_within_last(items.drop_last(), j);
        assert(items.drop_last()[j] == items[j]);
    }
}

/// Once a layout has stopped, the items it has not visited have no answer
/// and were not reached.
proof fn lemma_answers_after_stop<F: PlaceholderFormatter>(
    formatter: F,
    s: StyleView,
    items: Seq<FmtItem>,
    v: ValuesView,
    total: nat,
    a: Seq<Option<String>>,
    pass: nat,
    i: nat,
)
    requires
        a.len() == s.template.len(),
        i <= a.len(),
        answers_so_far(formatter, s, items, v, total, a, pass, i),
        !(layout_at(s, v, answers_view(a), total, pass, i).stop is Running),
    ensures
        forall|j: int|
            #![trigger a[j]]
            0 <= j < a.len() ==> answered(
                formatter,
                items[j],
                total,
                layout_at(s, v, answers_view(a), total, item_pass(s.template[j]), j as nat),
                a[j],
            ),
{
    assert forall|j: int| 0 <= j < a.len() implies answered(
        formatter,
        items[j],
        total,
        layout_at(s, v, answers_view(a), total, item_pass(s.template[j]), j as nat),
        #[trigger] a[j],
    ) by {
        if !visited_before(s.template, j, pass, i) {
            lemma_stop_stays(s, v, answers_view(a), total, pass, i, item_pass(s.template[j]), j as nat);
        }
    }
}

/// The request a placeholder item makes of the formatter, which is asked
/// only for placeholders: a literal item gets no answer.
fn ask<F: PlaceholderFormatter>(formatter: &F, item: &FmtItem, total: usize, avail: usize) -> (r: Option<String>)
    requires
        item_resolves(item@, total as int),
        avail <= total,
    ensures
        item@ is Literal ==> r is None,
        asked(*formatter, *item, total as nat, avail as nat, r),
{
    match item {
        FmtItem::Literal(_) => None,
        FmtItem::Placeholder { key, part } => match part {
            TemplatePart::Literal(_) => None,
            TemplatePart::Placeholder { extra_args, .. } => {
                proof {
                    if let PartView::Placeholder(p) = part@ {
                        lemma_resolves_fewer(p, total as int, avail as int);
                    }
                }
                let f = placeholder_format(part, total, avail);
                formatter.format(key, extra_args, &f, avail)
            },
        },
    }
}


/// Joins the texts.
fn join_texts(texts: &Vec<String>) -> (r: String)
    ensures
        r@ == joined(texts@.map_values(|t: String| t@)),
{
    let ghost tv = texts@.map_values(|t: String| t@);
    let mut out = String::new();
    let mut i: usize = 0;
    assert(tv.take(0) =~= Seq::<Seq<char>>::empty());
    while i < texts.len()
        invariant
            i <= texts.len(),
            tv == texts@.map_values(|t: String| t@),
            out@ == joined(tv.take(i as int)),
        decreases texts.len() - i,
    {
        out.append(texts[i].as_str());
        proof {
            assert(tv.take(i + 1).drop_last() =~= tv.take(i as int));
            assert(tv.take(i + 1).last() == texts@[i as int]@);
        }
        i = i + 1;
    }
    assert(tv.take(i as int) =~= tv);
    out
}

/// Lays out the line pass by pass. The answer for each placeholder comes
/// from `given` where it is there, else from the formatter; the answers used
/// are returned.
fn layout_with<F: PlaceholderFormatter>(
    style: &Style,
    v: &BarValues,
    total: usize,
    formatter: &F,
    given: Option<&Vec<Option<String>>>,
) -> (r: (LineOutcome, Vec<Option<String>>))
    requires
        template_resolves(style@.template, total as int),
        given matches Some(a) ==> a@.len() == style@.template.len(),
    ensures
        r.1@.len() == style@.template.len(),
        given matches Some(a) ==> answers_view(r.1@) == answers_view(a@),
        r.0@ == line_result(style@, v@, total as nat, answers_view(r.1@)),
        given is None ==> forall|j: int|
            #![trigger r.1@[j]]
            0 <= j < r.1@.len() ==> answered(
                *formatter,
                style.items()[j],
                total as nat,
                layout_at(style@, v@, answers_view(r.1@), total as nat, item_pass(style@.template[j]), j as nat),
                r.1@[j],
            ),
{
    let items = style.template();
    let ghost sv = style@;
    let n = items.len();
    let last = last_pass_of(items);
    let mut answers: Vec<Option<String>> = Vec::new();
    let mut texts: Vec<String> = Vec::new();
    let mut k: usize = 0;
    while k < n
        invariant
            k <= n,
            n == items@.len(),
            answers@.len() == k,
            texts@.len() == k,
            forall|j: int| 0 <= j < k ==> (#[trigger] texts@[j])@ == Seq::<char>::empty(),
            given matches Some(a) ==> a@.len() == n && forall|j: int| 0 <= j < k ==> opt_text(#[trigger] answers@[j]) == opt_text(a@[j]),
            given is None ==> forall|j: int| 0 <= j < k ==> (#[trigger] answers@[j]) is None,
        decreases n - k,
    {
        let a = match given {
            Some(g) => clone_answer(&g[k]),
            None => None,
        };
        answers.push(a);
        texts.push(String::new());
        k = k + 1;
    }
    let ghost av0 = answers_view(answers@);
    assert(sv.template.len() == n);
    proof {
        if let Some(g) = given {
            assert(av0 =~= answers_view(g@));
        }
        assert(texts@.map_values(|t: String| t@) =~= layout_start(n as nat, total as nat).texts);
        if given is None {
            assert(answers_so_far(*formatter, sv, items@, v@, total as nat, answers@, 0, 0));
        }
    }
    let mut avail: usize = total;
    let mut pass: u32 = 0;
    while pass <= last as u32
        invariant
            n == items@.len(),
            sv.template.len() == n,
            sv == style@,
            items_view_eq(items@, sv),
            answers@.len() == n,
            texts@.len() == n,
            avail <= total,
            template_resolves(sv.template, total as int),
            pass <= last as u32 + 1,
            last as nat == last_pass(sv.template),
            given matches Some(a) ==> answers_view(answers@) == answers_view(a@),
            items@ == style.items(),
            given is None ==> answers_so_far(*formatter, sv, items@, v@, total as nat, answers@, pass as nat, 0),
            layout_at(sv, v@, answers_view(answers@), total as nat, pass as nat, 0) == (Layout {
                texts: texts@.map_values(|t: String| t@),
                avail: avail as nat,
                stop: Stop::Running,
            }),
        decreases last as u32 + 1 - pass,
    {
        let mut i: usize = 0;
        while i < n
            invariant
                i <= n,
                n == items@.len(),
                sv.template.len() == n,
                sv == style@,
                items_view_eq(items@, sv),
                answers@.len() == n,
                texts@.len() == n,
                avail <= total,
                template_resolves(sv.template, total as int),
                pass <= last as u32,
                last as nat == last_pass(sv.template),
                given matches Some(a) ==> answers_view(answers@) == answers_view(a@),
                items@ == style.items(),
                given is None ==> answers_so_far(*formatter, sv, items@, v@, total as nat, answers@, pass as nat, i as nat),
                layout_at(sv, v@, answers_view(answers@), total as nat, pass as nat, i as nat) == (Layout {
                    texts: texts@.map_values(|t: String| t@),
                    avail: avail as nat,
                    stop: Stop::Running,
                }),
            decreases n - i,
        {
            let item = &items[i];
            let ghost before = answers_view(answers@);
            let ghost before_raw = answers@;
            assert(sv.template[i as int] == item@);
            assert(item_resolves(sv.template[i as int], total as int));
            if pass_of(item) as u32 == pass {
                let ans = match given {
                    Some(_) => clone_answer(&answers[i]),
                    None => ask(formatter, item, total, avail),
                };
                answers.set(i, clone_answer(&ans));
                let ghost ans_v = opt_text(ans);
                proof {
                    if given is None {
                        lemma_answers_record(*formatter, sv, items@, v@, total as nat, before_raw, pass as nat, i as int, ans);
                    }
                }
                proof {
                    let now = answers_view(answers@);
                    assert forall|j: int| 0 <= j < n && visited_before(sv.template, j, pass as nat, i as nat) implies before[j] == now[j] by {}
                    lemma_layout_frame(sv, v@, before, now, total as nat, pass as nat, i as nat);
                    if let Some(g) = given {
                        assert(now =~= before);
                    }
                    assert(now[i as int] == opt_text(ans));
                }
                let ghost st = layout_at(sv, v@, answers_view(answers@), total as nat, pass as nat, i as nat);
                let piece = render_item(style, v, item, ans, total, avail);
                proof {
                    let now = answers_view(answers@);
                    assert(sv.template[i as int] == item@);
                    assert(layout_at(sv, v@, now, total as nat, pass as nat, (i + 1) as nat)
                        == layout_step(sv, v@, now, total as nat, st, pass as nat, i as int));
                    assert(now[i as int] == ans_v);
                    assert(piece@ == item_text(sv, v@, sv.template[i as int], now[i as int], total as nat, avail as nat));
                }
                match piece {
                    PieceText::Text(t) => {
                        let w = measure_text_width(t.as_str());
                        avail = if w <= avail { avail - w } else { 0 };
                        texts.set(i, t);
                        proof {
                            assert(texts@.map_values(|t: String| t@) =~= layout_at(sv, v@, answers_view(answers@), total as nat, pass as nat, (i + 1) as nat).texts);
                        }
                    },
                    PieceText::Failed => {
                        proof {
                            lemma_stop_stays(sv, v@, answers_view(answers@), total as nat, pass as nat, (i + 1) as nat, last_pass(sv.template) + 1, 0);
                            if given is None {
                                lemma_answers_after_stop(*formatter, sv, items@, v@, total as nat, answers@, pass as nat, (i + 1) as nat);
                            }
                        }
                        return (LineOutcome::NoLine, answers);
                    },
                    PieceText::Panicked => {
                        proof {
                            lemma_stop_stays(sv, v@, answers_view(answers@), total as nat, pass as nat, (i + 1) as nat, last_pass(sv.template) + 1, 0);
                            if given is None {
                                lemma_answers_after_stop(*formatter, sv, items@, v@, total as nat, answers@, pass as nat, (i + 1) as nat);
                            }
                        }
                        return (LineOutcome::Panic, answers);
                    },
                }
            } else {
                proof {
                    if given is None {
                        lemma_answers_skip(*formatter, sv, items@, v@, total as nat, answers@, pass as nat, i as int);
                    }
                }
            }
            i = i + 1;
        }
        proof {
            if given is None {
                lemma_answers_next_pass(*formatter, sv, items@, v@, total as nat, answers@, pass as nat);
            }
        }
        pass = pass + 1;
    }
    proof {
        if given is None {
            assert forall|j: int| 0 <= j < answers@.len() implies visited_before(sv.template, j, pass as nat, 0) by {
                lemma_pass_within_last(sv.template, j);
            }
        }
    }
    (LineOutcome::Line(join_texts(&texts)), answers)
}


/// A formatter that never answers.
struct NoAnswers;

impl PlaceholderFormatter for NoAnswers {
    fn format(&self, key: &PlaceholderKey, extra_args: &Option<String>, spec: &FormatSpec, avail_width: usize) -> (r: Option<String>)
        ensures
            r is None,
    {
        None
    }
}

/// Renders the line of a bar `total` columns wide, asking the formatter for
/// each placeholder as it comes to it. Returns the line (or why there is
/// none) and the formatter's answers, one per template item: each
/// placeholder that the layout reached got what the formatter returned when
/// asked with the placeholder's key, its `@` arguments, its options resolved
/// against the columns then free, and those columns; literals and items not
/// reached have none.
pub fn render_line<F: PlaceholderFormatter>(style: &Style, v: &BarValues, total: usize, formatter: &F) -> (r: (
    LineOutcome,
    Vec<Option<String>>,
))
    requires
        template_resolves(style@.template, total as int),
    ensures
        r.1@.len() == style@.template.len(),
        r.0@ == line_result(style@, v@, total as nat, answers_view(r.1@)),
        forall|j: int|
            #![trigger r.1@[j]]
            0 <= j < r.1@.len() ==> answered(
                *formatter,
                style.items()[j],
                total as nat,
                layout_at(style@, v@, answers_view(r.1@), total as nat, item_pass(style@.template[j]), j as nat),
                r.1@[j],
            ),
{
    layout_with(style, v, total, formatter, None)
}

/// Renders the line of a bar `total` columns wide, with the given answer of
/// the formatter for each template item.
pub fn render_with_answers(style: &Style, v: &BarValues, total: usize, answers: &Vec<Option<String>>) -> (r: LineOutcome)
    requires
        template_resolves(style@.template, total as int),
        answers@.len() == style@.template.len(),
    ensures
        r@ == line_result(style@, v@, total as nat, answers_view(answers@)),
{
    let (line, _) = layout_with(style, v, total, &NoAnswers, Some(answers));
    line
}


/// Whether a width or precision resolves against `cols` columns within the
/// machine's integers.
fn resolves(w: Option<WidthPrecisionSpec>, cols: usize) -> (r: bool)
    ensures
        r == resolves_within(w, cols as int),
{
    match w {
        Some(x) => {
            let n: u16 = match x {
                WidthPrecisionSpec::Absolute(n) => n,
                WidthPrecisionSpec::PercentAbsolute(n) => n,
                WidthPrecisionSpec::PercentRelative(n) => n,
            };
            assert(n == wps_number(x));
            proof {
                assert((cols as int) * (n as int) <= (usize::MAX as int) * 65535) by (nonlinear_arith)
                    requires
                        cols <= usize::MAX,
                        n <= 65535,
                ;
            }
            (cols as u128) * (n as u128) <= usize::MAX as u128
        },
        None => true,
    }
}

/// Whether the widths and precisions of every placeholder of the style's
/// template resolve against `total` columns within the machine's integers,
/// as rendering a line of that width needs.
pub fn template_fits(style: &Style, total: usize) -> (r: bool)
    ensures
        r == template_resolves(style@.template, total as int),
{
    let items = style.template();
    let ghost iv = style@.template;
    let mut i: usize = 0;
    while i < items.len()
        invariant
            i <= items@.len(),
            iv == style@.template,
            crate::template::items_view(items@) == iv,
            forall|j: int| 0 <= j < i ==> item_resolves(#[trigger] iv[j], total as int),
        decreases items@.len() - i,
    {
        assert(iv[i as int] == items@[i as int]@);
        match &items[i] {
            FmtItem::Placeholder { part, .. } => match part {
                TemplatePart::Placeholder { width, precision, .. } => {
                    if !resolves(*width, total) || !resolves(*precision, total) {
                        return false;
                    }
                },
                TemplatePart::Literal(_) => {},
            },
            FmtItem::Literal(_) => {},
        }
        i = i + 1;
    }
    true
}

} // verus!
