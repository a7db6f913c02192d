//! Human-readable durations, and the duration formatter with its own
//! placeholder keys (`{hours}`, `{minutes:%02}`, `{hhmmss}`, ...).
use vstd::prelude::*;
use crate::text::FormatSpec;
use crate::text::decimal;
use crate::text::push_decimal;
use crate::text::string_from_chars;
use crate::text::str_equals;
use crate::text::chars_contain;
use crate::text::display_uint;
use crate::text::display_str;
use crate::text::push_display_uint;
use crate::text::push_display_str;
use crate::text::chars_of;
use crate::format::parser::ParseOptions;
use crate::format::parser::ParseConfig;
use crate::format::parser::ParseOutcome;
use crate::format::parser::PartView;
use crate::format::parser::PlaceholderView;
use crate::format::parser::TemplatePart;
use crate::format::parser::TemplateError;
use crate::format::parser::parse_outcome;
use crate::format::parser::parts_view;
use crate::format::parser::try_parse_template;
use crate::format::parser::format_spec_of;
use crate::format::parser::placeholder_format;
use crate::format::parser::opt_string_view;
use crate::external::styled_text;
use crate::external::ansi_styled;

verus! {

/// A span of time: whole seconds and nanoseconds.
#[derive(Debug, Clone, Copy, PartialEq, Eq, Structural)]
pub struct Duration {
    pub secs: u64,
    pub nanos: u32,
}

/// One unit in a human-readable duration, such as `41m`.
pub open spec fn unit_text(n: nat, unit: char) -> Seq<char> {
    decimal(n).push(unit)
}

/// `acc` followed by `item`, with a space between them when `acc` is not
/// empty.
pub open spec fn join_word(acc: Seq<char>, item: Seq<char>) -> Seq<char> {
    if acc.len() == 0 { item } else { acc + " "@ + item }
}

/// A duration of `total` seconds in human-readable form: days, hours,
/// minutes and seconds, each unit only when it is not zero (seconds also
/// when every unit is zero), separated by spaces, as in `1d 3h 41m 5s`.
pub open spec fn human_duration(total: nat) -> Seq<char> {
    let d = total / 86400;
    let h = (total % 86400) / 3600;
    let m = (total % 3600) / 60;
    let s = total % 60;
    let a = if d > 0 { unit_text(d, 'd') } else { Seq::empty() };
    let b = if h > 0 { join_word(a, unit_text(h, 'h')) } else { a };
    let c = if m > 0 { join_word(b, unit_text(m, 'm')) } else { b };
    if s > 0 || c.len() == 0 { join_word(c, unit_text(s, 's')) } else { c }
}

fn push_word(out: &mut Vec<char>, n: u64, unit: char)
    ensures
        final(out)@ == join_word(old(out)@, unit_text(n as nat, unit)),
{
    proof {
        reveal_strlit(" ");
    }
    let mut item: Vec<char> = Vec::new();
    push_decimal(&mut item, n);
    item.push(unit);
    assert(item@ =~= unit_text(n as nat, unit));
    if out.len() > 0 {
        out.push(' ');
    }
    let mut i: usize = 0;
    let ghost start = out@;
    while i < item.len()
        invariant
            i <= item.len(),
            out@ == start + item@.take(i as int),
        decreases item.len() - i,
    {
        out.push(item[i]);
        i = i + 1;
        assert(out@ =~= start + item@.take(i as int));
    }
    assert(item@.take(item.len() as int) =~= item@);
    assert(final(out)@ =~= join_word(old(out)@, unit_text(n as nat, unit)));
}

impl Duration {
    pub fn new(secs: u64, nanos: u32) -> (d: Duration)
        ensures
            d.secs == secs,
            d.nanos == nanos,
    {
        Duration { secs, nanos }
    }

    pub fn from_secs(secs: u64) -> (d: Duration)
        ensures
            d.secs == secs,
            d.nanos == 0,
    {
        Duration { secs, nanos: 0 }
    }

    /// The duration in human-readable form, for example `4m 31s`; parts of a
    /// second are not shown.
    pub fn to_string(&self) -> (s: String)
        ensures
            s@ == human_duration(self.secs as nat),
    {
        let total = self.secs;
        let d = total / 86400;
        let h = (total % 86400) / 3600;
        let m = (total % 3600) / 60;
        let sec = total % 60;
        let mut out: Vec<char> = Vec::new();
        if d > 0 {
            push_word(&mut out, d, 'd');
        }
        if h > 0 {
            push_word(&mut out, h, 'h');
        }
        if m > 0 {
            push_word(&mut out, m, 'm');
        }
        if sec > 0 || out.len() == 0 {
            push_word(&mut out, sec, 's');
        }
        string_from_chars(out.as_slice())
    }
}

/// The words for the units among `units` (count and unit letter, in order)
/// whose count is not zero, separated by spaces.
pub open spec fn nonzero_words(units: Seq<(nat, char)>) -> Seq<char>
    decreases units.len(),
{
    if units.len() == 0 {
        Seq::empty()
    } else {
        let acc = nonzero_words(units.drop_last());
        let (n, u) = units.last();
        let word = decimal(n).push(u);
        if n == 0 {
            acc
        } else if acc.len() == 0 {
            word
        } else {
            acc + seq![' '] + word
        }
    }
}

/// The days, hours, minutes and seconds of `total` seconds, with their unit
/// letters.
pub open spec fn day_hour_min_sec(total: nat) -> Seq<(nat, char)> {
    seq![(total / 86400, 'd'), ((total % 86400) / 3600, 'h'), ((total % 3600) / 60, 'm'), (total % 60, 's')]
}

/// Law: a duration in human form is the words of its nonzero units among
/// days, hours (below 24), minutes (below 60) and seconds (below 60), in
/// that order, which add up to the duration; only a zero duration is written
/// `0s`.
pub proof fn law_human_duration_words(total: nat)
    ensures
        ({
            let w = day_hour_min_sec(total);
            &&& w[0].0 * 86400 + w[1].0 * 3600 + w[2].0 * 60 + w[3].0 == total
            &&& w[1].0 < 24 && w[2].0 < 60 && w[3].0 < 60
            &&& total > 0 ==> human_duration(total) == nonzero_words(w)
            &&& total == 0 ==> human_duration(total) == seq!['0', 's']
        }),
{
    let w = day_hour_min_sec(total);
    let d = total / 86400;
    let r = total % 86400;
    let h = r / 3600;
    let m = (total % 3600) / 60;
    let s = total % 60;
    vstd::arithmetic::div_mod::lemma_fundamental_div_mod(total as int, 86400);
    vstd::arithmetic::div_mod::lemma_fundamental_div_mod(r as int, 3600);
    vstd::arithmetic::div_mod::lemma_fundamental_div_mod(total as int, 3600);
    assert(total == 86400 * d + r && r < 86400);
    assert(r == 3600 * h + r % 3600 && r % 3600 < 3600);
    assert(total % 3600 == r % 3600) by (nonlinear_arith)
        requires
            total == 86400 * d + r,
            r == 3600 * h + r % 3600,
            r % 3600 < 3600,
    ;
    assert(total % 3600 == 60 * m + s) by (nonlinear_arith)
        requires
            m == (total % 3600) / 60,
            s == total % 60,
            total % 3600 < 3600,
            total == 3600 * (total / 3600) + total % 3600,
    ;
    assert(h < 24) by (nonlinear_arith)
        requires
            r < 86400,
            h == r / 3600,
    ;
    assert(m < 60) by (nonlinear_arith)
        requires
            total % 3600 < 3600,
            m == (total % 3600) / 60,
    ;
    assert(w[0].0 * 86400 + w[1].0 * 3600 + w[2].0 * 60 + w[3].0 == total);
    reveal_with_fuel(nonzero_words, 5);
    assert(w.drop_last().drop_last().drop_last().drop_last() =~= Seq::<(nat, char)>::empty());
    assert(w.drop_last().drop_last().drop_last() =~= seq![(d, 'd')]);
    assert(w.drop_last().drop_last() =~= seq![(d, 'd'), (h, 'h')]);
    assert(w.drop_last() =~= seq![(d, 'd'), (h, 'h'), (m, 'm')]);
    let days_words = if d > 0 { unit_text(d, 'd') } else { Seq::empty() };
    let hours_words = if h > 0 { join_word(days_words, unit_text(h, 'h')) } else { days_words };
    let minutes_words = if m > 0 { join_word(hours_words, unit_text(m, 'm')) } else { hours_words };
    reveal_strlit(" ");
    assert(" "@ =~= seq![' ']);
    assert(nonzero_words(w.drop_last().drop_last().drop_last()) == days_words);
    assert(nonzero_words(w.drop_last().drop_last()) == hours_words);
    assert(nonzero_words(w.drop_last()) == minutes_words);
    if total > 0 && s == 0 {
        assert(d > 0 || h > 0 || m > 0);
        assert(minutes_words.len() > 0);
    }
    if total == 0 {
        assert(decimal(0) == seq!['0']);
        assert(crate::text::digit_char(0) == '0');
        assert(unit_text(0, 's') =~= seq!['0', 's']);
    }
}

/// A point in time as seconds and nanoseconds since the Unix epoch.
#[derive(Debug, Clone, Copy, PartialEq, Eq, Structural)]
pub struct RelativeTime(pub Duration);

/// A duration as a number of nanoseconds.
pub open spec fn total_nanos(d: Duration) -> int {
    d.secs * 1_000_000_000 + d.nanos
}

/// The whole seconds between two points in time, in either direction.
pub open spec fn seconds_between(a: Duration, b: Duration) -> nat {
    let x = total_nanos(a);
    let y = total_nanos(b);
    (if x < y { y - x } else { x - y }) as nat / 1_000_000_000
}

impl RelativeTime {
    /// The distance between this time and `now` in human-readable form,
    /// the same for the past and for the future.
    pub fn to_string_at(&self, now: Duration) -> (s: String)
        requires
            self.0.nanos < 1_000_000_000,
            now.nanos < 1_000_000_000,
        ensures
            s@ == human_duration(seconds_between(self.0, now)),
    {
        let x: u128 = (self.0.secs as u128) * 1_000_000_000 + self.0.nanos as u128;
        let y: u128 = (now.secs as u128) * 1_000_000_000 + now.nanos as u128;
        let diff = if x < y { y - x } else { x - y };
        assert(diff / 1_000_000_000 <= u64::MAX) by (nonlinear_arith)
            requires
                diff <= x || diff <= y,
                x <= (u64::MAX as int) * 1_000_000_000 + 999_999_999,
                y <= (u64::MAX as int) * 1_000_000_000 + 999_999_999,
        ;
        let secs = (diff / 1_000_000_000) as u64;
        Duration::from_secs(secs).to_string()
    }
}

/// Law: a relative time shows the same for a point in the past as for the
/// point as far in the future: the distance does not depend on the order.
pub proof fn law_relative_time_symmetric(a: Duration, b: Duration)
    ensures
        seconds_between(a, b) == seconds_between(b, a),
{
}

/// The units that the duration formatter knows.
#[derive(Debug, Clone, Copy, PartialEq, Eq, Structural)]
pub enum TimeUnit {
    Years,
    Months,
    Weeks,
    Days,
    Hours,
    Minutes,
    Seconds,
    Millis,
}

/// The unit that a placeholder key names.
pub open spec fn unit_of(key: Seq<char>) -> Option<TimeUnit> {
    if key == "years"@ {
        Some(TimeUnit::Years)
    } else if key == "months"@ {
        Some(TimeUnit::Months)
    } else if key == "weeks"@ {
        Some(TimeUnit::Weeks)
    } else if key == "days"@ {
        Some(TimeUnit::Days)
    } else if key == "hours"@ || key == "hrs"@ {
        Some(TimeUnit::Hours)
    } else if key == "minutes"@ || key == "mins"@ {
        Some(TimeUnit::Minutes)
    } else if key == "seconds"@ || key == "secs"@ {
        Some(TimeUnit::Seconds)
    } else if key == "millis"@ || key == "ms"@ {
        Some(TimeUnit::Millis)
    } else {
        None
    }
}

/// Whether the duration formatter accepts a placeholder key.
pub open spec fn supported_key(key: Seq<char>) -> bool {
    unit_of(key) is Some || key == "hhmmss"@
}

/// The whole number of units in a duration (years of 365 days, months of
/// 30 days); milliseconds stop at `u64::MAX`.
pub open spec fn unit_value(u: TimeUnit, d: Duration) -> nat {
    match u {
        TimeUnit::Years => d.secs as nat / 31_536_000,
        TimeUnit::Months => d.secs as nat / 2_592_000,
        TimeUnit::Weeks => d.secs as nat / 604_800,
        TimeUnit::Days => d.secs as nat / 86_400,
        TimeUnit::Hours => d.secs as nat / 3_600,
        TimeUnit::Minutes => d.secs as nat / 60,
        TimeUnit::Seconds => d.secs as nat,
        TimeUnit::Millis => {
            let m = d.secs * 1000 + d.nanos / 1_000_000;
            if m > u64::MAX { u64::MAX as nat } else { m as nat }
        },
    }
}

/// A unit value brought into its natural range (the `%` flag).
pub open spec fn unit_modulo(u: TimeUnit, v: nat) -> nat {
    match u {
        TimeUnit::Years => v,
        TimeUnit::Months => v % 12,
        TimeUnit::Weeks => v % 52,
        TimeUnit::Days => v % 30,
        TimeUnit::Hours => v % 24,
        TimeUnit::Minutes => v % 60,
        TimeUnit::Seconds => v % 60,
        TimeUnit::Millis => v % 1000,
    }
}

/// Two digits, zero-padded.
pub open spec fn two_digits() -> FormatSpec {
    FormatSpec {
        fill: ' ',
        align: None,
        width: Some(2),
        precision: None,
        sign_plus: false,
        alternate: false,
        zero_pad: true,
    }
}

/// The `hhmmss` shorthand: total hours, then minutes and seconds within
/// their hour and minute, each at least two digits, separated by colons.
pub open spec fn hhmmss_text(d: Duration) -> Seq<char> {
    display_uint(two_digits(), d.secs as nat / 3600) + ":"@ + display_uint(two_digits(), (d.secs as nat / 60) % 60)
        + ":"@ + display_uint(two_digits(), d.secs as nat % 60)
}

/// A piece of formatted output, with the style to paint it in, if any.
pub struct Piece {
    pub text: Seq<char>,
    pub style: Option<Seq<char>>,
}

pub open spec fn plain_piece(t: Seq<char>) -> Seq<Piece> {
    seq![Piece { text: t, style: None }]
}

/// The optional suffix of a placeholder (its `@` argument).
pub open spec fn suffix_pieces(p: PlaceholderView) -> Seq<Piece> {
    match p.extra_args {
        Some(a) => plain_piece(a),
        None => Seq::empty(),
    }
}

/// What the duration formatter writes for one placeholder: the value (in its
/// style, if any), then the suffix, then an `s` under the `s` flag unless the
/// value is one. Under the `%` flag the value is taken within its natural
/// range; under the `?` flag a zero value writes nothing at all.
pub open spec fn placeholder_pieces(p: PlaceholderView, d: Duration) -> Seq<Piece> {
    let f = format_spec_of(p, 0, 0);
    if p.key == "hhmmss"@ {
        seq![Piece { text: display_str(f, hhmmss_text(d)), style: p.ansi_style }] + suffix_pieces(p)
            + (if p.extra_flags.contains('s') { plain_piece("s"@) } else { Seq::empty() })
    } else {
        let u = unit_of(p.key).unwrap();
        let raw = unit_value(u, d);
        let v = if p.extra_flags.contains('%') { unit_modulo(u, raw) } else { raw };
        if p.extra_flags.contains('?') && v == 0 {
            Seq::empty()
        } else {
            seq![Piece { text: display_uint(f, v), style: p.ansi_style }] + suffix_pieces(p)
                + (if p.extra_flags.contains('s') && v != 1 { plain_piece("s"@) } else { Seq::empty() })
        }
    }
}

/// A placeholder with another key.
pub open spec fn with_key(p: PlaceholderView, key: Seq<char>) -> PlaceholderView {
    PlaceholderView { key, ..p }
}

/// Law: the short keys write exactly what the long ones do, whatever the
/// specifiers and the duration: `hrs` as `hours`, `mins` as `minutes`,
/// `secs` as `seconds`, `ms` as `millis`.
pub proof fn law_duration_key_aliases(p: PlaceholderView, d: Duration)
    ensures
        placeholder_pieces(with_key(p, "hrs"@), d) == placeholder_pieces(with_key(p, "hours"@), d),
        placeholder_pieces(with_key(p, "mins"@), d) == placeholder_pieces(with_key(p, "minutes"@), d),
        placeholder_pieces(with_key(p, "secs"@), d) == placeholder_pieces(with_key(p, "seconds"@), d),
        placeholder_pieces(with_key(p, "ms"@), d) == placeholder_pieces(with_key(p, "millis"@), d),
        supported_key("hrs"@) && supported_key("mins"@) && supported_key("secs"@) && supported_key("ms"@),
{
    reveal_strlit("hrs");
    reveal_strlit("hours");
    reveal_strlit("mins");
    reveal_strlit("minutes");
    reveal_strlit("secs");
    reveal_strlit("seconds");
    reveal_strlit("ms");
    reveal_strlit("millis");
    reveal_strlit("hhmmss");
    reveal_strlit("years");
    reveal_strlit("months");
    reveal_strlit("weeks");
    reveal_strlit("days");
    assert("hhmmss"@.len() == 6);
    assert("hrs"@.len() == 3 && "hours"@.len() == 5 && "mins"@.len() == 4 && "minutes"@.len() == 7);
    assert("secs"@.len() == 4 && "seconds"@.len() == 7 && "ms"@.len() == 2 && "millis"@.len() == 6);
    assert("millis"@[0] != "hhmmss"@[0]);
    assert("years"@.len() == 5 && "months"@.len() == 6 && "weeks"@.len() == 5 && "days"@.len() == 4);
    assert("hours"@[0] != "years"@[0] && "hours"@[0] != "weeks"@[0]);
    assert("mins"@[0] != "days"@[0] && "secs"@[0] != "days"@[0] && "secs"@[0] != "mins"@[0]);
    assert("seconds"@[0] != "minutes"@[0] && "millis"@[1] != "months"@[1]);
    assert(unit_of("hrs"@) == Some(TimeUnit::Hours) && unit_of("hours"@) == Some(TimeUnit::Hours));
    assert(unit_of("mins"@) == Some(TimeUnit::Minutes) && unit_of("minutes"@) == Some(TimeUnit::Minutes));
    assert(unit_of("secs"@) == Some(TimeUnit::Seconds) && unit_of("seconds"@) == Some(TimeUnit::Seconds));
    assert(unit_of("ms"@) == Some(TimeUnit::Millis) && unit_of("millis"@) == Some(TimeUnit::Millis));
}

/// The natural range of a unit within the next larger one: 12 months, 52
/// weeks, 30 days, 24 hours, 60 minutes, 60 seconds, 1000 milliseconds.
/// Years have none (0 here).
pub open spec fn natural_range(u: TimeUnit) -> nat {
    match u {
        TimeUnit::Years => 0,
        TimeUnit::Months => 12,
        TimeUnit::Weeks => 52,
        TimeUnit::Days => 30,
        TimeUnit::Hours => 24,
        TimeUnit::Minutes => 60,
        TimeUnit::Seconds => 60,
        TimeUnit::Millis => 1000,
    }
}

/// Law: under the `%` flag a unit other than years is written as its whole
/// count taken within its natural range: the number written is always below
/// that range, and the whole count is that number plus whole multiples of
/// the range.
pub proof fn law_percent_flag_natural_range(p: PlaceholderView, d: Duration)
    requires
        p.key != "hhmmss"@,
        unit_of(p.key) is Some,
        unit_of(p.key) != Some(TimeUnit::Years),
        p.extra_flags.contains('%'),
        !p.extra_flags.contains('?'),
    ensures
        ({
            let u = unit_of(p.key).unwrap();
            let shown = unit_value(u, d) % natural_range(u);
            &&& shown < natural_range(u)
            &&& unit_value(u, d) == natural_range(u) * (unit_value(u, d) / natural_range(u)) + shown
            &&& placeholder_pieces(p, d).len() >= 1
            &&& placeholder_pieces(p, d)[0] == (Piece {
                text: display_uint(format_spec_of(p, 0, 0), shown),
                style: p.ansi_style,
            })
        }),
{
    let u = unit_of(p.key).unwrap();
    let n = natural_range(u);
    assert(n > 0);
    let raw = unit_value(u, d);
    assert(unit_modulo(u, raw) == raw % n);
    vstd::arithmetic::div_mod::lemma_fundamental_div_mod(raw as int, n as int);
}

/// Law: `{ms:%}` (or `{millis:%}`) writes the milliseconds within the
/// current second: the whole milliseconds of the duration modulo 1000, which
/// are those of its part below a second.
pub proof fn law_percent_millis(p: PlaceholderView, d: Duration)
    requires
        p.key == "ms"@ || p.key == "millis"@,
        p.extra_flags.contains('%'),
        !p.extra_flags.contains('?'),
        d.nanos < 1_000_000_000,
        d.secs * 1000 + d.nanos / 1_000_000 <= u64::MAX,
    ensures
        placeholder_pieces(p, d).len() >= 1,
        placeholder_pieces(p, d)[0].text == display_uint(
            format_spec_of(p, 0, 0),
            ((d.secs * 1000 + d.nanos / 1_000_000) % 1000) as nat,
        ),
        (d.secs * 1000 + d.nanos / 1_000_000) % 1000 == d.nanos / 1_000_000,
{
    reveal_strlit("ms");
    reveal_strlit("millis");
    reveal_strlit("hhmmss");
    reveal_strlit("years");
    reveal_strlit("months");
    reveal_strlit("weeks");
    reveal_strlit("days");
    reveal_strlit("hours");
    reveal_strlit("hrs");
    reveal_strlit("minutes");
    reveal_strlit("mins");
    reveal_strlit("seconds");
    reveal_strlit("secs");
    assert("ms"@.len() == 2 && "millis"@.len() == 6 && "hhmmss"@.len() == 6);
    assert("millis"@[0] != "hhmmss"@[0]);
    assert("years"@.len() == 5 && "months"@.len() == 6 && "weeks"@.len() == 5 && "days"@.len() == 4);
    assert("hours"@.len() == 5 && "hrs"@.len() == 3 && "minutes"@.len() == 7 && "mins"@.len() == 4);
    assert("seconds"@.len() == 7 && "secs"@.len() == 4);
    assert("millis"@[1] != "months"@[1]);
    assert(unit_of(p.key) == Some(TimeUnit::Millis));
    let ms = d.nanos / 1_000_000;
    assert(ms < 1000);
    let m = d.secs * 1000 + ms;
    assert(m % 1000 == ms) by (nonlinear_arith)
        requires
            m == d.secs * 1000 + ms,
            0 <= ms < 1000,
    ;
    law_percent_flag_natural_range(p, d);
}

/// What the duration formatter writes for a sequence of parts.
pub open spec fn duration_pieces(parts: Seq<PartView>, d: Duration) -> Seq<Piece>
    decreases parts.len(),
{
    if parts.len() == 0 {
        Seq::empty()
    } else {
        duration_pieces(parts.drop_last(), d) + match parts.last() {
            PartView::Literal(t) => plain_piece(t),
            PartView::Placeholder(p) => placeholder_pieces(p, d),
        }
    }
}

/// A piece as written: its text, painted in its style if it has one and
/// colours are on (an empty style paints nothing).
pub open spec fn piece_output(p: Piece, colors: bool) -> Seq<char> {
    match p.style {
        Some(st) => if colors && st.len() > 0 { ansi_styled(st, p.text, colors) } else { p.text },
        None => p.text,
    }
}

/// The pieces as written, joined.
pub open spec fn styled_output(ps: Seq<Piece>, colors: bool) -> Seq<char>
    decreases ps.len(),
{
    if ps.len() == 0 {
        Seq::empty()
    } else {
        styled_output(ps.drop_last(), colors) + piece_output(ps.last(), colors)
    }
}

/// The parse options of duration templates: styles, `@` suffixes, and the
/// flags `%`, `s` and `?`.
pub open spec fn duration_config() -> ParseConfig {
    ParseConfig { relative_width: false, extra_args: true, defer: false, style: true, flags: Some(seq!['%', 's', '?']) }
}

fn duration_options() -> (o: ParseOptions)
    ensures
        o@ == duration_config(),
{
    let mut flags: Vec<char> = Vec::new();
    flags.push('%');
    flags.push('s');
    flags.push('?');
    let o = ParseOptions { relative_width: false, extra_args: true, defer: false, style: true, flag_handler: Some(flags) };
    assert(o@.flags->0 =~= seq!['%', 's', '?']);
    o
}

/// The key of the first placeholder whose key the formatter does not know.
pub open spec fn first_unsupported(parts: Seq<PartView>) -> Option<Seq<char>>
    decreases parts.len(),
{
    if parts.len() == 0 {
        None
    } else {
        match parts[0] {
            PartView::Placeholder(p) => if !supported_key(p.key) {
                Some(p.key)
            } else {
                first_unsupported(parts.drop_first())
            },
            PartView::Literal(_) => first_unsupported(parts.drop_first()),
        }
    }
}

/// Every placeholder key is one the formatter knows.
pub open spec fn all_supported(parts: Seq<PartView>) -> bool {
    forall|i: int| 0 <= i < parts.len() ==> match #[trigger] parts[i] {
        PartView::Placeholder(p) => supported_key(p.key),
        PartView::Literal(_) => true,
    }
}

proof fn lemma_first_unsupported(parts: Seq<PartView>)
    ensures
        first_unsupported(parts) is None <==> all_supported(parts),
    decreases parts.len(),
{
    if parts.len() > 0 {
        lemma_first_unsupported(parts.drop_first());
        if all_supported(parts.drop_first()) {
            assert forall|i: int| 0 <= i < parts.len() && i != 0 implies match #[trigger] parts[i] {
                PartView::Placeholder(p) => supported_key(p.key),
                PartView::Literal(_) => true,
            } by {
                assert(parts[i] == parts.drop_first()[i - 1]);
            }
        } else {
            let j = choose|j: int| 0 <= j < parts.len() - 1 && !match #[trigger] parts.drop_first()[j] {
                PartView::Placeholder(p) => supported_key(p.key),
                PartView::Literal(_) => true,
            };
            assert(parts[j + 1] == parts.drop_first()[j]);
        }
    }
}

/// What creating a formatter from a template gives: the parts, or the
/// parser's error, or an error at index 0 naming the first unknown key.
pub enum FormatterOutcome {
    Built(Seq<PartView>),
    Failed(nat, Seq<char>),
    Aborted,
}

pub open spec fn msg_unsupported(key: Seq<char>) -> Seq<char> {
    "unsupported placeholder key '"@ + key + "'"@
}

pub open spec fn formatter_outcome(template: Seq<char>) -> FormatterOutcome {
    match parse_outcome(duration_config(), template) {
        ParseOutcome::Parsed(ps) => match first_unsupported(ps) {
            Some(k) => FormatterOutcome::Failed(0, msg_unsupported(k)),
            None => FormatterOutcome::Built(ps),
        },
        ParseOutcome::Failed(i, m) => FormatterOutcome::Failed(i, m),
        ParseOutcome::Aborted => FormatterOutcome::Aborted,
    }
}

/// A formatter for durations with user-given specifiers, for example
/// `{hours:%02}:{minutes:%02}`.
///
/// The keys are `years`, `months`, `weeks`, `days`, `hours`/`hrs`,
/// `minutes`/`mins`, `seconds`/`secs`, `millis`/`ms`, and `hhmmss` for
/// `17:03:11`. The flag `%` takes a value within its natural range, `s`
/// writes an `s` after the suffix unless the value is one, `?` omits a zero
/// value, and `@...` is a suffix written after the value. Fill, alignment,
/// width, precision, `+` and `0` apply to the value, and `$style` paints it.
#[derive(Debug)]
pub struct DurationFormatter(Vec<TemplatePart>);

impl DurationFormatter {
    #[verifier::type_invariant]
    spec fn known_keys(self) -> bool {
        all_supported(parts_view(self.0@))
    }

    /// The parts of the template.
    pub closed spec fn parts(&self) -> Seq<PartView> {
        parts_view(self.0@)
    }

    fn key_supported(key: &str) -> (r: bool)
        ensures
            r == supported_key(key@),
    {
        unit_of_key(key).is_some() || str_equals(key, "hhmmss")
    }

    /// Creates a formatter from a template, or returns `None` where the
    /// parser aborts (a width above 65535).
    pub fn try_new(template: &str) -> (r: Option<Result<DurationFormatter, TemplateError>>)
        ensures
            match formatter_outcome(template@) {
                FormatterOutcome::Built(ps) => match r {
                    Some(Ok(f)) => f.parts() == ps,
                    _ => false,
                },
                FormatterOutcome::Failed(i, m) => match r {
                    Some(Err(e)) => e.char_index == i && e.message@ == m,
                    _ => false,
                },
                FormatterOutcome::Aborted => r is None,
            },
    {
        let opts = duration_options();
        let res = try_parse_template(template, opts);
        assert(opts@ == duration_config());
        let parsed = match res {
            None => {
                return None;
            },
            Some(Err(e)) => {
                return Some(Err(e));
            },
            Some(Ok(v)) => v,
        };
        let ghost ps = parts_view(parsed@);
        assert(parse_outcome(opts@, template@) == ParseOutcome::Parsed(ps));
        assert(ps.skip(0) =~= ps);
        assert(ps.take(0) =~= Seq::<PartView>::empty());
        let mut i: usize = 0;
        while i < parsed.len()
            invariant
                i <= parsed.len(),
                ps == parts_view(parsed@),
                parse_outcome(duration_config(), template@) == ParseOutcome::Parsed(ps),
                first_unsupported(ps) == first_unsupported(ps.skip(i as int)),
                all_supported(ps.take(i as int)),
            decreases parsed.len() - i,
        {
            assert(ps.skip(i as int).drop_first() =~= ps.skip(i + 1));
            assert(ps.skip(i as int)[0] == ps[i as int]);
            match &parsed[i] {
                TemplatePart::Placeholder { key, .. } => {
                    if !Self::key_supported(key.as_str()) {
                        assert(first_unsupported(ps.skip(i as int)) == Some(key@));
                        let mut message = String::from_str("unsupported placeholder key '");
                        message.append(key.as_str());
                        message.append("'");
                        assert(message@ == msg_unsupported(key@));
                        return Some(Err(TemplateError { char_index: 0, message }));
                    }
                },
                TemplatePart::Literal(_) => {},
            }
            assert forall|j: int| 0 <= j < i + 1 implies match #[trigger] ps.take(i + 1)[j] {
                PartView::Placeholder(p) => supported_key(p.key),
                PartView::Literal(_) => true,
            } by {
                if j < i {
                    assert(ps.take(i + 1)[j] == ps.take(i as int)[j]);
                }
            }
            i = i + 1;
        }
        assert(ps.skip(i as int).len() == 0);
        assert(ps.take(i as int) =~= ps);
        Some(Ok(DurationFormatter(parsed)))
    }

    /// Creates a formatter from a template.
    pub fn new(template: &str) -> (r: Result<DurationFormatter, TemplateError>)
        requires
            !(formatter_outcome(template@) is Aborted),
        ensures
            match formatter_outcome(template@) {
                FormatterOutcome::Built(ps) => match r {
                    Ok(f) => f.parts() == ps,
                    _ => false,
                },
                FormatterOutcome::Failed(i, m) => match r {
                    Err(e) => e.char_index == i && e.message@ == m,
                    _ => false,
                },
                FormatterOutcome::Aborted => false,
            },
    {
        match Self::try_new(template) {
            Some(r) => r,
            None => {
                assert(false);
                Err(TemplateError { char_index: 0, message: String::new() })
            },
        }
    }
}

fn unit_of_key(key: &str) -> (r: Option<TimeUnit>)
    ensures
        r == unit_of(key@),
{
    if str_equals(key, "years") {
        Some(TimeUnit::Years)
    } else if str_equals(key, "months") {
        Some(TimeUnit::Months)
    } else if str_equals(key, "weeks") {
        Some(TimeUnit::Weeks)
    } else if str_equals(key, "days") {
        Some(TimeUnit::Days)
    } else if str_equals(key, "hours") || str_equals(key, "hrs") {
        Some(TimeUnit::Hours)
    } else if str_equals(key, "minutes") || str_equals(key, "mins") {
        Some(TimeUnit::Minutes)
    } else if str_equals(key, "seconds") || str_equals(key, "secs") {
        Some(TimeUnit::Seconds)
    } else if str_equals(key, "millis") || str_equals(key, "ms") {
        Some(TimeUnit::Millis)
    } else {
        None
    }
}


/// A piece of formatted text, with the style to paint it in, if any.
#[derive(Debug)]
pub struct StyledText {
    pub text: String,
    pub style: Option<String>,
}

impl View for StyledText {
    type V = Piece;

    open spec fn view(&self) -> Piece {
        Piece { text: self.text@, style: opt_string_view(self.style) }
    }
}

pub open spec fn pieces_view(v: Seq<StyledText>) -> Seq<Piece> {
    v.map_values(|p: StyledText| p@)
}

fn push_piece(out: &mut Vec<StyledText>, text: &[char], style: Option<String>)
    ensures
        pieces_view(final(out)@) == pieces_view(old(out)@).push(Piece { text: text@, style: opt_string_view(style) }),
{
    let t = string_from_chars(text);
    out.push(StyledText { text: t, style });
    assert(pieces_view(out@) =~= pieces_view(old(out)@).push(Piece { text: text@, style: opt_string_view(style) }));
}

fn push_plain(out: &mut Vec<StyledText>, text: &str)
    ensures
        pieces_view(final(out)@) == pieces_view(old(out)@) + plain_piece(text@),
{
    out.push(StyledText { text: String::from_str(text), style: None });
    assert(pieces_view(out@) =~= pieces_view(old(out)@) + plain_piece(text@));
}

fn unit_value_of(u: TimeUnit, d: &Duration) -> (v: u64)
    ensures
        v as nat == unit_value(u, *d),
{
    match u {
        TimeUnit::Years => d.secs / 31_536_000,
        TimeUnit::Months => d.secs / 2_592_000,
        TimeUnit::Weeks => d.secs / 604_800,
        TimeUnit::Days => d.secs / 86_400,
        TimeUnit::Hours => d.secs / 3_600,
        TimeUnit::Minutes => d.secs / 60,
        TimeUnit::Seconds => d.secs,
        TimeUnit::Millis => {
            let m: u128 = (d.secs as u128) * 1000 + (d.nanos / 1_000_000) as u128;
            if m > u64::MAX as u128 {
                u64::MAX
            } else {
                m as u64
            }
        },
    }
}

fn unit_modulo_of(u: TimeUnit, v: u64) -> (r: u64)
    ensures
        r as nat == unit_modulo(u, v as nat),
{
    match u {
        TimeUnit::Years => v,
        TimeUnit::Months => v % 12,
        TimeUnit::Weeks => v % 52,
        TimeUnit::Days => v % 30,
        TimeUnit::Hours => v % 24,
        TimeUnit::Minutes => v % 60,
        TimeUnit::Seconds => v % 60,
        TimeUnit::Millis => v % 1000,
    }
}

fn two_digits_spec() -> (f: FormatSpec)
    ensures
        f == two_digits(),
{
    FormatSpec {
        fill: ' ',
        align: None,
        width: Some(2),
        precision: None,
        sign_plus: false,
        alternate: false,
        zero_pad: true,
    }
}

fn hhmmss_chars(d: &Duration) -> (v: Vec<char>)
    ensures
        v@ == hhmmss_text(*d),
{
    proof {
        reveal_strlit(":");
    }
    let f = two_digits_spec();
    let mut v: Vec<char> = Vec::new();
    push_display_uint(&mut v, &f, d.secs / 3600);
    v.push(':');
    push_display_uint(&mut v, &f, (d.secs / 60) % 60);
    v.push(':');
    push_display_uint(&mut v, &f, d.secs % 60);
    assert(v@ =~= hhmmss_text(*d));
    v
}

fn clone_opt_string(s: &Option<String>) -> (r: Option<String>)
    ensures
        opt_string_view(r) == opt_string_view(*s),
{
    match s {
        Some(t) => Some(t.clone()),
        None => None,
    }
}

fn push_suffix(out: &mut Vec<StyledText>, extra_args: &Option<String>)
    ensures
        pieces_view(final(out)@) == pieces_view(old(out)@) + match opt_string_view(*extra_args) {
            Some(a) => plain_piece(a),
            None => Seq::empty(),
        },
{
    match extra_args {
        Some(a) => {
            push_plain(out, a.as_str());
        },
        None => {
            assert(pieces_view(out@) =~= pieces_view(old(out)@) + Seq::<Piece>::empty());
        },
    }
}

/// Appends the pieces of one placeholder.
fn push_placeholder_pieces(out: &mut Vec<StyledText>, part: &TemplatePart, d: &Duration)
    requires
        part@ matches PartView::Placeholder(p) && supported_key(p.key),
    ensures
        part@ matches PartView::Placeholder(p) && pieces_view(final(out)@) == pieces_view(old(out)@) + placeholder_pieces(p, *d),
{
    let f = placeholder_format(part, 0, 0);
    match part {
        TemplatePart::Placeholder { key, extra_args, extra_flags, ansi_style, .. } => {
            let ghost p = match part@ {
                PartView::Placeholder(p) => p,
                _ => arbitrary(),
            };
            let plural = chars_contain(extra_flags, 's');
            if str_equals(key.as_str(), "hhmmss") {
                let t = hhmmss_chars(d);
                let mut shown: Vec<char> = Vec::new();
                push_display_str(&mut shown, &f, t.as_slice());
                push_piece(out, shown.as_slice(), clone_opt_string(ansi_style));
                push_suffix(out, extra_args);
                if plural {
                    push_plain(out, "s");
                }
                assert(pieces_view(out@) =~= pieces_view(old(out)@) + placeholder_pieces(p, *d));
            } else {
                let u = match unit_of_key(key.as_str()) {
                    Some(u) => u,
                    None => {
                        assert(false);
                        TimeUnit::Seconds
                    },
                };
                let raw = unit_value_of(u, d);
                let v = if chars_contain(extra_flags, '%') { unit_modulo_of(u, raw) } else { raw };
                if chars_contain(extra_flags, '?') && v == 0 {
                    assert(pieces_view(out@) =~= pieces_view(old(out)@) + placeholder_pieces(p, *d));
                    return;
                }
                let mut shown: Vec<char> = Vec::new();
                push_display_uint(&mut shown, &f, v);
                push_piece(out, shown.as_slice(), clone_opt_string(ansi_style));
                push_suffix(out, extra_args);
                if plural && v != 1 {
                    push_plain(out, "s");
                }
                assert(pieces_view(out@) =~= pieces_view(old(out)@) + placeholder_pieces(p, *d));
            }
        },
        TemplatePart::Literal(_) => {},
    }
}

/// Paints each styled piece in its style (escape codes only when `colors`)
/// and joins the texts.
pub fn apply_styles(pieces: &Vec<StyledText>, colors: bool) -> (s: String)
    ensures
        s@ == styled_output(pieces_view(pieces@), colors),
{
    let ghost ps = pieces_view(pieces@);
    let mut out = String::new();
    let mut i: usize = 0;
    assert(ps.take(0) =~= Seq::<Piece>::empty());
    while i < pieces.len()
        invariant
            i <= pieces.len(),
            ps == pieces_view(pieces@),
            out@ == styled_output(ps.take(i as int), colors),
        decreases pieces.len() - i,
    {
        let piece = &pieces[i];
        match &piece.style {
            Some(st) => {
                if colors && st.as_str().unicode_len() > 0 {
                    let r = styled_text(st.as_str(), piece.text.as_str(), colors);
                    out.append(r.as_str());
                } else {
                    out.append(piece.text.as_str());
                }
            },
            None => {
                out.append(piece.text.as_str());
            },
        }
        proof {
            let t = ps.take(i + 1);
            assert(t.drop_last() =~= ps.take(i as int));
            assert(t.last() == piece@);
        }
        i = i + 1;
    }
    assert(ps.take(i as int) =~= ps);
    out
}

impl DurationFormatter {
    /// The pieces that formatting `d` writes, each with its style.
    pub fn format_pieces(&self, d: Duration) -> (v: Vec<StyledText>)
        ensures
            pieces_view(v@) == duration_pieces(self.parts(), d),
    {
        proof {
            use_type_invariant(self);
        }
        let ghost ps = self.parts();
        let mut out: Vec<StyledText> = Vec::new();
        let mut i: usize = 0;
        assert(ps.take(0) =~= Seq::<PartView>::empty());
        assert(pieces_view(out@) =~= Seq::<Piece>::empty());
        while i < self.0.len()
            invariant
                i <= self.0.len(),
                ps == parts_view(self.0@),
                all_supported(ps),
                pieces_view(out@) == duration_pieces(ps.take(i as int), d),
            decreases self.0.len() - i,
        {
            let part = &self.0[i];
            assert(ps[i as int] == part@);
            let ghost before = pieces_view(out@);
            match part {
                TemplatePart::Literal(t) => {
                    push_plain(&mut out, t.as_str());
                },
                TemplatePart::Placeholder { .. } => {
                    push_placeholder_pieces(&mut out, part, &d);
                },
            }
            assert(ps.take(i + 1).drop_last() =~= ps.take(i as int));
            assert(ps.take(i + 1).last() == part@);
            i = i + 1;
        }
        assert(ps.take(i as int) =~= ps);
        out
    }

    /// Formats `d` with this formatter: the pieces of [`Self::format_pieces`],
    /// each styled piece painted in its style (escape codes only when
    /// `colors`).
    pub fn format_into(&self, d: Duration, colors: bool) -> (s: String)
        ensures
            s@ == styled_output(duration_pieces(self.parts(), d), colors),
    {
        let pieces = self.format_pieces(d);
        apply_styles(&pieces, colors)
    }
}


/// The texts of pieces, joined.
pub open spec fn pieces_text(ps: Seq<Piece>) -> Seq<char>
    decreases ps.len(),
{
    if ps.len() == 0 {
        Seq::empty()
    } else {
        pieces_text(ps.drop_last()) + ps.last().text
    }
}

/// Law: with colours off, or where no piece carries a style, the output is
/// the pieces' texts joined: styling adds nothing else.
pub proof fn law_plain_output(ps: Seq<Piece>, colors: bool)
    requires
        !colors || forall|i: int| 0 <= i < ps.len() ==> (#[trigger] ps[i]).style is None,
    ensures
        styled_output(ps, colors) == pieces_text(ps),
    decreases ps.len(),
{
    if ps.len() > 0 {
        let ps2 = ps.drop_last();
        assert forall|i: int| 0 <= i < ps2.len() && colors implies (#[trigger] ps2[i]).style is None by {
            assert(ps2[i] == ps[i]);
        }
        law_plain_output(ps2, colors);
        if colors {
            assert(ps[ps.len() - 1].style is None);
        }
        assert(piece_output(ps.last(), colors) == ps.last().text);
    }
}

} // verus!
