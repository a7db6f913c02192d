//! The extended format-specifier template parser.
//!
//! A template is text with placeholders in braces, such as
//! `"{msg} [{bar:40!}] {pos}/{len}"`. The parser reads the characters one at a
//! time as a state machine; [`step`] is one transition of that machine and
//! [`parse_outcome`] its run over a whole template.
use vstd::prelude::*;
use crate::text::Alignment;
use crate::text::push_char;
use crate::text::chars_contain;
use crate::text::FormatSpec;
use crate::text::string_from_chars;
use crate::text::chars_of;
use crate::text::decimal;
use crate::text::push_decimal;

verus! {

/// A width or precision: an absolute number, a percentage of the total width
/// (`N%`), or a percentage of the width still available (`N%%`).
#[derive(Debug, Clone, Copy, PartialEq, Eq, Structural)]
pub enum WidthPrecisionSpec {
    Absolute(u16),
    PercentAbsolute(u16),
    PercentRelative(u16),
}

/// The number that a width or precision holds, whatever its kind.
pub open spec fn wps_number(w: WidthPrecisionSpec) -> u16 {
    match w {
        WidthPrecisionSpec::Absolute(x) => x,
        WidthPrecisionSpec::PercentAbsolute(x) => x,
        WidthPrecisionSpec::PercentRelative(x) => x,
    }
}

/// The same kind of width or precision, holding another number.
pub open spec fn wps_with_number(w: WidthPrecisionSpec, x: u16) -> WidthPrecisionSpec {
    match w {
        WidthPrecisionSpec::Absolute(_) => WidthPrecisionSpec::Absolute(x),
        WidthPrecisionSpec::PercentAbsolute(_) => WidthPrecisionSpec::PercentAbsolute(x),
        WidthPrecisionSpec::PercentRelative(_) => WidthPrecisionSpec::PercentRelative(x),
    }
}

/// The value of a decimal digit character.
pub open spec fn digit_value(c: char) -> int {
    c as int - '0' as int
}

pub open spec fn is_digit(c: char) -> bool {
    '0' <= c && c <= '9'
}

/// The resolved width: the number itself, or the percentage of the total or
/// of the available width, rounded down and truncated to 16 bits.
pub open spec fn resolved(w: WidthPrecisionSpec, total_width: int, avail_width: int) -> u16 {
    match w {
        WidthPrecisionSpec::Absolute(x) => x,
        WidthPrecisionSpec::PercentAbsolute(x) => ((total_width * x) / 100) as u16,
        WidthPrecisionSpec::PercentRelative(x) => ((avail_width * x) / 100) as u16,
    }
}

/// Whether appending the digit `c` to the number of `w` stays within 16 bits.
pub open spec fn digit_fits(w: WidthPrecisionSpec, c: char) -> bool {
    10 * wps_number(w) + digit_value(c) <= u16::MAX
}

/// `w` with the digit `c` appended to its number.
pub open spec fn with_digit(w: WidthPrecisionSpec, c: char) -> WidthPrecisionSpec {
    wps_with_number(w, (10 * wps_number(w) + digit_value(c)) as u16)
}

fn digit_of(c: char) -> (d: u16)
    requires
        is_digit(c),
    ensures
        d as int == digit_value(c),
{
    (c as u32 - '0' as u32) as u16
}

impl WidthPrecisionSpec {
    /// Resolves the width against the total and the available width.
    pub fn resolve(self, total_width: usize, avail_width: usize) -> (r: u16)
        requires
            total_width * wps_number(self) <= usize::MAX,
            avail_width * wps_number(self) <= usize::MAX,
        ensures
            r == resolved(self, total_width as int, avail_width as int),
    {
        match self {
            WidthPrecisionSpec::Absolute(x) => x,
            WidthPrecisionSpec::PercentAbsolute(x) => ((total_width * (x as usize)) / 100) as u16,
            WidthPrecisionSpec::PercentRelative(x) => ((avail_width * (x as usize)) / 100) as u16,
        }
    }

    /// Appends a decimal digit to the number.
    pub fn append_digit(&mut self, digit: char)
        requires
            is_digit(digit),
            digit_fits(*old(self), digit),
        ensures
            *final(self) == with_digit(*old(self), digit),
    {
        let d = digit_of(digit);
        match self {
            WidthPrecisionSpec::Absolute(x) => { *x = 10 * (*x) + d; },
            WidthPrecisionSpec::PercentAbsolute(x) => { *x = 10 * (*x) + d; },
            WidthPrecisionSpec::PercentRelative(x) => { *x = 10 * (*x) + d; },
        }
    }

    /// An absolute width made of one digit.
    pub fn abs_from_digit(digit: char) -> (r: Self)
        requires
            is_digit(digit),
        ensures
            r == WidthPrecisionSpec::Absolute(digit_value(digit) as u16),
    {
        WidthPrecisionSpec::Absolute(digit_of(digit))
    }
}

/// The states of the template parser.
#[derive(Debug, Clone, Copy, PartialEq, Eq, Structural)]
pub enum ParserState {
    Literal,
    PlaceholderName,
    OneOpenBrace,
    OneCloseBrace,
    PlaceholderParams,
    PlaceholderWidth,
    PlaceholderPrecision,
    PlaceholderFillAlign,
    PlaceholderAnsiStyle,
    PlaceholderExtraArgs,
}

/// The name of a parser state, as error messages print it.
pub open spec fn state_name(s: ParserState) -> Seq<char> {
    match s {
        ParserState::Literal => "Literal"@,
        ParserState::PlaceholderName => "PlaceholderName"@,
        ParserState::OneOpenBrace => "OneOpenBrace"@,
        ParserState::OneCloseBrace => "OneCloseBrace"@,
        ParserState::PlaceholderParams => "PlaceholderParams"@,
        ParserState::PlaceholderWidth => "PlaceholderWidth"@,
        ParserState::PlaceholderPrecision => "PlaceholderPrecision"@,
        ParserState::PlaceholderFillAlign => "PlaceholderFillAlign"@,
        ParserState::PlaceholderAnsiStyle => "PlaceholderAnsiStyle"@,
        ParserState::PlaceholderExtraArgs => "PlaceholderExtraArgs"@,
    }
}

fn state_name_str(s: ParserState) -> (r: &'static str)
    ensures
        r@ == state_name(s),
{
    match s {
        ParserState::Literal => "Literal",
        ParserState::PlaceholderName => "PlaceholderName",
        ParserState::OneOpenBrace => "OneOpenBrace",
        ParserState::OneCloseBrace => "OneCloseBrace",
        ParserState::PlaceholderParams => "PlaceholderParams",
        ParserState::PlaceholderWidth => "PlaceholderWidth",
        ParserState::PlaceholderPrecision => "PlaceholderPrecision",
        ParserState::PlaceholderFillAlign => "PlaceholderFillAlign",
        ParserState::PlaceholderAnsiStyle => "PlaceholderAnsiStyle",
        ParserState::PlaceholderExtraArgs => "PlaceholderExtraArgs",
    }
}

/// One parsed piece of a template: literal text, or a placeholder with its
/// key and format specifiers.
#[derive(Debug, Clone)]
pub enum TemplatePart {
    Literal(String),
    Placeholder {
        part_idx: usize,
        key: String,
        alt: bool,
        zero: bool,
        sign: Option<char>,
        fill: Option<char>,
        align: Option<Alignment>,
        width: Option<WidthPrecisionSpec>,
        precision: Option<WidthPrecisionSpec>,
        deferred: u16,
        extra_args: Option<String>,
        extra_flags: Vec<char>,
        ansi_style: Option<String>,
    },
}

/// The specifiers of a placeholder, with its texts as character sequences.
#[verifier::ext_equal]
pub struct PlaceholderView {
    pub part_idx: nat,
    pub key: Seq<char>,
    pub alt: bool,
    pub zero: bool,
    pub sign: Option<char>,
    pub fill: Option<char>,
    pub align: Option<Alignment>,
    pub width: Option<WidthPrecisionSpec>,
    pub precision: Option<WidthPrecisionSpec>,
    pub deferred: u16,
    pub extra_args: Option<Seq<char>>,
    pub extra_flags: Seq<char>,
    pub ansi_style: Option<Seq<char>>,
}

/// A template part, with its texts as character sequences.
#[verifier::ext_equal]
pub enum PartView {
    Literal(Seq<char>),
    Placeholder(PlaceholderView),
}

pub open spec fn opt_string_view(s: Option<String>) -> Option<Seq<char>> {
    match s {
        Some(t) => Some(t@),
        None => None,
    }
}

impl View for TemplatePart {
    type V = PartView;

    open spec fn view(&self) -> PartView {
        match self {
            TemplatePart::Literal(s) => PartView::Literal(s@),
            TemplatePart::Placeholder {
                part_idx,
                key,
                alt,
                zero,
                sign,
                fill,
                align,
                width,
                precision,
                deferred,
                extra_args,
                extra_flags,
                ansi_style,
            } => PartView::Placeholder(
                PlaceholderView {
                    part_idx: *part_idx as nat,
                    key: key@,
                    alt: *alt,
                    zero: *zero,
                    sign: *sign,
                    fill: *fill,
                    align: *align,
                    width: *width,
                    precision: *precision,
                    deferred: *deferred,
                    extra_args: opt_string_view(*extra_args),
                    extra_flags: extra_flags@,
                    ansi_style: opt_string_view(*ansi_style),
                },
            ),
        }
    }
}

/// The views of a sequence of parts.
pub open spec fn parts_view(v: Seq<TemplatePart>) -> Seq<PartView> {
    v.map_values(|p: TemplatePart| p@)
}

/// Which extensions the parser accepts.
///
/// `flag_handler` lists the characters accepted as extra flags after the
/// standard specifiers; `None` accepts none.
#[derive(Debug, Clone)]
pub struct ParseOptions {
    pub relative_width: bool,
    pub extra_args: bool,
    pub defer: bool,
    pub style: bool,
    pub flag_handler: Option<Vec<char>>,
}

impl Default for ParseOptions {
    fn default() -> (r: Self)
        ensures
            !r.relative_width,
            !r.extra_args,
            !r.defer,
            !r.style,
            r.flag_handler is None,
    {
        ParseOptions { relative_width: false, extra_args: false, defer: false, style: false, flag_handler: None }
    }
}

/// The parse options as plain values.
pub struct ParseConfig {
    pub relative_width: bool,
    pub extra_args: bool,
    pub defer: bool,
    pub style: bool,
    pub flags: Option<Seq<char>>,
}

impl View for ParseOptions {
    type V = ParseConfig;

    open spec fn view(&self) -> ParseConfig {
        ParseConfig {
            relative_width: self.relative_width,
            extra_args: self.extra_args,
            defer: self.defer,
            style: self.style,
            flags: match self.flag_handler {
                Some(v) => Some(v@),
                None => None,
            },
        }
    }
}

/// Whether the options accept `c` as an extra flag.
pub open spec fn flag_ok(opts: ParseConfig, c: char) -> bool {
    match opts.flags {
        Some(v) => v.contains(c),
        None => false,
    }
}

fn flag_accepted(opts: &ParseOptions, c: char) -> (r: bool)
    ensures
        r == flag_ok(opts@, c),
{
    match &opts.flag_handler {
        Some(v) => chars_contain(v, c),
        None => false,
    }
}

/// An error that occurred while parsing a template string.
#[derive(Debug)]
pub struct TemplateError {
    /// The character index in the template string where the error occurred.
    pub char_index: usize,
    /// A message describing the error.
    pub message: String,
}

/// The parser's state between two characters.
#[verifier::ext_equal]
pub struct Scan {
    pub mode: ParserState,
    pub parts: Seq<PartView>,
    pub buffer: Seq<char>,
    pub alt: bool,
    pub zero: bool,
    pub sign: Option<char>,
    pub fill: Option<char>,
    pub align: Option<Alignment>,
    pub width: Option<WidthPrecisionSpec>,
    pub precision: Option<WidthPrecisionSpec>,
    pub deferred: u16,
    pub extra_args: Seq<char>,
    pub extra_flags: Seq<char>,
    pub ansi_style: Option<Seq<char>>,
    pub nested: nat,
}

/// What one character does to the parser: a new state, an error at the
/// given index with the given message, or an abort (where the parser panics:
/// a number above 65535, or more than 65535 `!`s). A `%` after `.` with no
/// precision digit yet is an error.
#[verifier::ext_equal]
pub enum Step {
    Next(Scan),
    Fail(nat, Seq<char>),
    Abort,
}

/// The state before the first character.
pub open spec fn initial_scan() -> Scan {
    Scan {
        mode: ParserState::Literal,
        parts: Seq::empty(),
        buffer: Seq::empty(),
        alt: false,
        zero: false,
        sign: None,
        fill: None,
        align: None,
        width: None,
        precision: None,
        deferred: 0,
        extra_args: Seq::empty(),
        extra_flags: Seq::empty(),
        ansi_style: None,
        nested: 0,
    }
}

pub open spec fn is_align_char(c: char) -> bool {
    c == '<' || c == '^' || c == '>'
}

/// The parts with the pending literal text appended, if there is any.
pub open spec fn flush(parts: Seq<PartView>, buffer: Seq<char>) -> Seq<PartView> {
    if buffer.len() > 0 {
        parts.push(PartView::Literal(buffer))
    } else {
        parts
    }
}

/// The state with its pending literal text moved into the parts.
pub open spec fn flushed(st: Scan) -> Scan {
    Scan { parts: flush(st.parts, st.buffer), buffer: Seq::empty(), ..st }
}

/// The placeholder that the state holds when its closing brace is read.
pub open spec fn placeholder_of(st: Scan) -> PlaceholderView {
    PlaceholderView {
        part_idx: st.parts.len(),
        key: st.buffer,
        alt: st.alt,
        zero: st.zero,
        sign: st.sign,
        fill: st.fill,
        align: st.align,
        width: st.width,
        precision: st.precision,
        deferred: st.deferred,
        extra_args: if st.extra_args.len() == 0 { None } else { Some(st.extra_args) },
        extra_flags: st.extra_flags,
        ansi_style: st.ansi_style,
    }
}

/// The state after a placeholder's closing brace: the placeholder is
/// appended and every specifier is reset.
pub open spec fn close_placeholder(st: Scan) -> Scan {
    Scan {
        mode: ParserState::Literal,
        parts: st.parts.push(PartView::Placeholder(placeholder_of(st))),
        buffer: Seq::empty(),
        alt: false,
        zero: false,
        sign: None,
        fill: None,
        align: None,
        width: None,
        precision: None,
        deferred: 0,
        extra_args: Seq::empty(),
        extra_flags: Seq::empty(),
        ansi_style: None,
        nested: st.nested,
    }
}

pub open spec fn with_mode(st: Scan, m: ParserState) -> Scan {
    Scan { mode: m, ..st }
}

pub open spec fn push_buffer(st: Scan, m: ParserState, c: char) -> Scan {
    Scan { mode: m, buffer: st.buffer.push(c), ..st }
}

/// The next kind of a width or precision after a `%`: absolute becomes
/// percent-of-total, which becomes percent-of-available; a third `%` is
/// refused (`None`).
pub open spec fn percent_next(w: WidthPrecisionSpec) -> Option<WidthPrecisionSpec> {
    match w {
        WidthPrecisionSpec::Absolute(x) => Some(WidthPrecisionSpec::PercentAbsolute(x)),
        WidthPrecisionSpec::PercentAbsolute(x) => Some(WidthPrecisionSpec::PercentRelative(x)),
        WidthPrecisionSpec::PercentRelative(_) => None,
    }
}

pub open spec fn msg_two_percents() -> Seq<char> {
    "at most two '%'s are allowed"@
}

pub open spec fn msg_percent_without_precision() -> Seq<char> {
    "'%' needs a precision before it"@
}

pub open spec fn msg_invalid_char(c: char) -> Seq<char> {
    "invalid char '"@ + seq![c] + "'"@
}

pub open spec fn msg_after_close(c: char) -> Seq<char> {
    "unexpected character '"@ + seq![c] + "' after '}'"@
}

pub open spec fn msg_unterminated(s: ParserState) -> Seq<char> {
    "unterminated format specifier: left in state "@ + state_name(s)
}

/// A digit for the width: a new one-digit absolute width, or the digit
/// appended to the width there is (an abort where it passes 65535).
pub open spec fn width_digit_step(w: Option<WidthPrecisionSpec>, c: char) -> Option<WidthPrecisionSpec> {
    match w {
        None => Some(WidthPrecisionSpec::Absolute(digit_value(c) as u16)),
        Some(x) => if digit_fits(x, c) { Some(with_digit(x, c)) } else { None },
    }
}

/// One character in the states that read specifiers after the key: the
/// parameters, the width, the precision and the style string.
pub open spec fn step_specifier(opts: ParseConfig, st: Scan, c: char, i: nat) -> Step {
    let m = st.mode;
    if c == '}' {
        Step::Next(close_placeholder(st))
    } else if m == ParserState::PlaceholderParams && c == '<' {
        Step::Next(Scan { align: Some(Alignment::Left), ..st })
    } else if m == ParserState::PlaceholderParams && c == '^' {
        Step::Next(Scan { align: Some(Alignment::Center), ..st })
    } else if m == ParserState::PlaceholderParams && c == '>' {
        Step::Next(Scan { align: Some(Alignment::Right), ..st })
    } else if c == '!' && opts.defer && m != ParserState::PlaceholderAnsiStyle {
        if st.deferred == u16::MAX {
            Step::Abort
        } else {
            Step::Next(Scan { deferred: (st.deferred + 1) as u16, ..st })
        }
    } else if m == ParserState::PlaceholderParams && c == '+' {
        Step::Next(Scan { sign: Some('+'), ..st })
    } else if m == ParserState::PlaceholderParams && c == '-' {
        Step::Next(Scan { sign: Some('-'), ..st })
    } else if m == ParserState::PlaceholderParams && c == '#' {
        Step::Next(Scan { alt: true, ..st })
    } else if m == ParserState::PlaceholderParams && c == '0' {
        Step::Next(Scan { zero: true, ..st })
    } else if m == ParserState::PlaceholderWidth && c == '%' && opts.relative_width && st.width is Some {
        match percent_next(st.width.unwrap()) {
            Some(w) => Step::Next(Scan { width: Some(w), ..st }),
            None => Step::Fail(i, msg_two_percents()),
        }
    } else if m == ParserState::PlaceholderPrecision && c == '%' && opts.relative_width && st.width is Some {
        match st.precision {
            None => Step::Fail(i, msg_percent_without_precision()),
            Some(p) => match percent_next(p) {
                Some(q) => Step::Next(Scan { precision: Some(q), ..st }),
                None => Step::Fail(i, msg_two_percents()),
            },
        }
    } else if (m == ParserState::PlaceholderParams || m == ParserState::PlaceholderWidth) && c == '.' {
        Step::Next(with_mode(st, ParserState::PlaceholderPrecision))
    } else if (m == ParserState::PlaceholderParams && '1' <= c && c <= '9')
        || (m == ParserState::PlaceholderWidth && is_digit(c)) {
        match width_digit_step(st.width, c) {
            Some(w) => Step::Next(Scan { width: Some(w), mode: ParserState::PlaceholderWidth, ..st }),
            None => Step::Abort,
        }
    } else if m == ParserState::PlaceholderPrecision && is_digit(c) {
        match width_digit_step(st.precision, c) {
            Some(p) => Step::Next(Scan { precision: Some(p), ..st }),
            None => Step::Abort,
        }
    } else if m != ParserState::PlaceholderAnsiStyle && c == '$' && opts.style {
        Step::Next(Scan { ansi_style: Some(Seq::empty()), mode: ParserState::PlaceholderAnsiStyle, ..st })
    } else if c == '@' && opts.extra_args {
        Step::Next(with_mode(st, ParserState::PlaceholderExtraArgs))
    } else if m == ParserState::PlaceholderAnsiStyle {
        Step::Next(
            Scan {
                ansi_style: match st.ansi_style {
                    Some(a) => Some(a.push(c)),
                    None => None,
                },
                ..st
            },
        )
    } else if flag_ok(opts, c) {
        Step::Next(Scan { extra_flags: st.extra_flags.push(c), ..st })
    } else {
        Step::Fail(i, msg_invalid_char(c))
    }
}

/// One transition: the character `c` at index `i`, with `next` the character
/// after it (if any).
pub open spec fn step(opts: ParseConfig, st0: Scan, c: char, next: Option<char>, i: nat) -> Step {
    let st = if st0.mode == ParserState::PlaceholderFillAlign && !(next is Some && is_align_char(next.unwrap())) {
        with_mode(st0, ParserState::PlaceholderParams)
    } else {
        st0
    };
    match st.mode {
        ParserState::Literal => if c == '{' {
            Step::Next(with_mode(st, ParserState::OneOpenBrace))
        } else if c == '}' {
            Step::Next(with_mode(st, ParserState::OneCloseBrace))
        } else {
            Step::Next(push_buffer(st, ParserState::Literal, c))
        },
        ParserState::OneOpenBrace => if c == '{' {
            Step::Next(push_buffer(st, ParserState::Literal, '{'))
        } else if c == ':' {
            Step::Fail(i, "invalid empty placeholder name"@)
        } else if c == '}' {
            Step::Fail(i, "invalid empty placeholder"@)
        } else {
            Step::Next(
                Scan {
                    mode: ParserState::PlaceholderName,
                    parts: flush(st.parts, st.buffer),
                    buffer: seq![c],
                    ..st
                },
            )
        },
        ParserState::PlaceholderExtraArgs => if c == '{' {
            Step::Next(Scan { extra_args: st.extra_args.push('{'), nested: st.nested + 1, ..st })
        } else if c == '}' && st.nested > 0 {
            Step::Next(Scan { extra_args: st.extra_args.push('}'), nested: (st.nested - 1) as nat, ..st })
        } else if c == '}' {
            Step::Next(close_placeholder(st))
        } else {
            Step::Next(Scan { extra_args: st.extra_args.push(c), ..st })
        },
        ParserState::PlaceholderName => if c == '}' {
            Step::Next(close_placeholder(st))
        } else if c == ':' {
            Step::Next(with_mode(st, ParserState::PlaceholderFillAlign))
        } else {
            Step::Next(push_buffer(st, ParserState::PlaceholderName, c))
        },
        ParserState::PlaceholderFillAlign => Step::Next(
            Scan { fill: Some(c), mode: ParserState::PlaceholderParams, ..st },
        ),
        ParserState::OneCloseBrace => if c == '}' {
            Step::Next(push_buffer(st, ParserState::Literal, '}'))
        } else {
            Step::Fail(i, msg_after_close(c))
        },
        _ => step_specifier(opts, st, c, i),
    }
}

/// The character after index `i`, if any.
pub open spec fn lookahead(chars: Seq<char>, i: nat) -> Option<char> {
    if i + 1 < chars.len() {
        Some(chars[i + 1 as int])
    } else {
        None
    }
}

/// The parser after reading the first `i` characters.
pub open spec fn run(opts: ParseConfig, chars: Seq<char>, i: nat) -> Step
    decreases i,
{
    if i == 0 {
        Step::Next(initial_scan())
    } else {
        match run(opts, chars, (i - 1) as nat) {
            Step::Next(st) => step(opts, st, chars[i - 1 as int], lookahead(chars, (i - 1) as nat), (i - 1) as nat),
            other => other,
        }
    }
}

/// The result of parsing a whole template: its parts, an error (index and
/// message), or an abort where the parser panics.
#[verifier::ext_equal]
pub enum ParseOutcome {
    Parsed(Seq<PartView>),
    Failed(nat, Seq<char>),
    Aborted,
}

/// Parses the characters `chars` under `opts`.
pub open spec fn parse_outcome(opts: ParseConfig, chars: Seq<char>) -> ParseOutcome {
    match run(opts, chars, chars.len()) {
        Step::Next(st) => if st.mode != ParserState::Literal {
            ParseOutcome::Failed(chars.len(), msg_unterminated(st.mode))
        } else {
            ParseOutcome::Parsed(flush(st.parts, st.buffer))
        },
        Step::Fail(i, m) => ParseOutcome::Failed(i, m),
        Step::Abort => ParseOutcome::Aborted,
    }
}


/// What one exec transition did.
enum StepExec {
    Continue,
    Fail(TemplateError),
    Abort,
}

/// Whether an exec transition did what the spec transition `expected` says,
/// leaving the parser in `after`.
spec fn step_matches(r: StepExec, expected: Step, after: Scan) -> bool {
    match expected {
        Step::Next(st) => r is Continue && after == st,
        Step::Fail(j, m) => match r {
            StepExec::Fail(e) => e.char_index == j && e.message@ == m,
            _ => false,
        },
        Step::Abort => r is Abort,
    }
}

fn message_with_char(prefix: &str, c: char, suffix: &str) -> (s: String)
    ensures
        s@ == prefix@ + seq![c] + suffix@,
{
    let mut s = String::from_str(prefix);
    push_char(&mut s, c);
    s.append(suffix);
    s
}

fn make_error(i: usize, message: String) -> (e: TemplateError)
    ensures
        e.char_index == i,
        e.message == message,
{
    TemplateError { char_index: i, message }
}

fn wps_number_of(w: WidthPrecisionSpec) -> (x: u16)
    ensures
        x == wps_number(w),
{
    match w {
        WidthPrecisionSpec::Absolute(x) => x,
        WidthPrecisionSpec::PercentAbsolute(x) => x,
        WidthPrecisionSpec::PercentRelative(x) => x,
    }
}

fn width_digit(w: Option<WidthPrecisionSpec>, c: char) -> (r: Option<WidthPrecisionSpec>)
    requires
        is_digit(c),
    ensures
        r == width_digit_step(w, c),
{
    match w {
        None => Some(WidthPrecisionSpec::abs_from_digit(c)),
        Some(x) => {
            let n = wps_number_of(x) as u32;
            let d = digit_of(c) as u32;
            if 10 * n + d <= 65535 {
                let mut y = x;
                y.append_digit(c);
                Some(y)
            } else {
                None
            }
        },
    }
}

fn percent_next_of(w: WidthPrecisionSpec) -> (r: Option<WidthPrecisionSpec>)
    ensures
        r == percent_next(w),
{
    match w {
        WidthPrecisionSpec::Absolute(x) => Some(WidthPrecisionSpec::PercentAbsolute(x)),
        WidthPrecisionSpec::PercentAbsolute(x) => Some(WidthPrecisionSpec::PercentRelative(x)),
        WidthPrecisionSpec::PercentRelative(_) => None,
    }
}

/// The exec state of the parser; its view is a [`Scan`].
struct Scanner {
    mode: ParserState,
    parts: Vec<TemplatePart>,
    buffer: Vec<char>,
    alt: bool,
    zero: bool,
    sign: Option<char>,
    fill: Option<char>,
    align: Option<Alignment>,
    width: Option<WidthPrecisionSpec>,
    precision: Option<WidthPrecisionSpec>,
    deferred: u16,
    extra_args: Vec<char>,
    extra_flags: Vec<char>,
    ansi_style: Option<Vec<char>>,
    nested: usize,
}

spec fn opt_chars_view(v: Option<Vec<char>>) -> Option<Seq<char>> {
    match v {
        Some(t) => Some(t@),
        None => None,
    }
}

impl Scanner {
    spec fn view(&self) -> Scan {
        Scan {
            mode: self.mode,
            parts: parts_view(self.parts@),
            buffer: self.buffer@,
            alt: self.alt,
            zero: self.zero,
            sign: self.sign,
            fill: self.fill,
            align: self.align,
            width: self.width,
            precision: self.precision,
            deferred: self.deferred,
            extra_args: self.extra_args@,
            extra_flags: self.extra_flags@,
            ansi_style: opt_chars_view(self.ansi_style),
            nested: self.nested as nat,
        }
    }

    fn new() -> (s: Scanner)
        ensures
            s.view() == initial_scan(),
    {
        let s = Scanner {
            mode: ParserState::Literal,
            parts: Vec::new(),
            buffer: Vec::new(),
            alt: false,
            zero: false,
            sign: None,
            fill: None,
            align: None,
            width: None,
            precision: None,
            deferred: 0,
            extra_args: Vec::new(),
            extra_flags: Vec::new(),
            ansi_style: None,
            nested: 0,
        };
        assert(s.view() =~= initial_scan());
        s
    }

    /// Appends the pending literal text as a part, if there is any.
    fn flush_buffer(&mut self)
        ensures
            final(self).view() == flushed(old(self).view()),
    {
        if self.buffer.len() > 0 {
            let lit = string_from_chars(self.buffer.as_slice());
            let ghost old_parts = self.parts@;
            self.parts.push(TemplatePart::Literal(lit));
            assert(parts_view(self.parts@) =~= parts_view(old_parts).push(PartView::Literal(old(self).buffer@)));
        }
        self.buffer = Vec::new();
        assert(self.view() =~= flushed(old(self).view()));
    }

    /// Closes the placeholder being read: appends it and resets the
    /// specifiers.
    fn close(&mut self)
        ensures
            final(self).view() == close_placeholder(old(self).view()),
    {
        let key = string_from_chars(self.buffer.as_slice());
        let extra_args = if self.extra_args.len() == 0 {
            None
        } else {
            Some(string_from_chars(self.extra_args.as_slice()))
        };
        let ansi_style = match &self.ansi_style {
            Some(a) => Some(string_from_chars(a.as_slice())),
            None => None,
        };
        let mut flags: Vec<char> = Vec::new();
        std::mem::swap(&mut flags, &mut self.extra_flags);
        let part = TemplatePart::Placeholder {
            part_idx: self.parts.len(),
            key,
            alt: self.alt,
            zero: self.zero,
            sign: self.sign,
            fill: self.fill,
            align: self.align,
            width: self.width,
            precision: self.precision,
            deferred: self.deferred,
            extra_args,
            extra_flags: flags,
            ansi_style,
        };
        assert(part@ =~= PartView::Placeholder(placeholder_of(old(self).view())));
        let ghost old_parts = self.parts@;
        self.parts.push(part);
        assert(parts_view(self.parts@) =~= parts_view(old_parts).push(PartView::Placeholder(placeholder_of(old(self).view()))));
        self.mode = ParserState::Literal;
        self.buffer = Vec::new();
        self.alt = false;
        self.zero = false;
        self.sign = None;
        self.fill = None;
        self.align = None;
        self.width = None;
        self.precision = None;
        self.deferred = 0;
        self.extra_args = Vec::new();
        self.ansi_style = None;
        assert(self.view() =~= close_placeholder(old(self).view()));
    }

    /// One character in the specifier states.
    fn step_specifier(&mut self, opts: &ParseOptions, c: char, i: usize) -> (r: StepExec)
        requires
            old(self).mode == ParserState::PlaceholderParams
                || old(self).mode == ParserState::PlaceholderWidth
                || old(self).mode == ParserState::PlaceholderPrecision
                || old(self).mode == ParserState::PlaceholderAnsiStyle,
        ensures
            step_matches(r, step_specifier(opts@, old(self).view(), c, i as nat), final(self).view()),
            final(self).nested == old(self).nested,
    {
        let ghost st = self.view();
        let m = self.mode;
        if c == '}' {
            self.close();
            return StepExec::Continue;
        }
        if m == ParserState::PlaceholderParams && c == '<' {
            self.align = Some(Alignment::Left);
            assert(self.view() =~= Scan { align: Some(Alignment::Left), ..st });
            return StepExec::Continue;
        }
        if m == ParserState::PlaceholderParams && c == '^' {
            self.align = Some(Alignment::Center);
            assert(self.view() =~= Scan { align: Some(Alignment::Center), ..st });
            return StepExec::Continue;
        }
        if m == ParserState::PlaceholderParams && c == '>' {
            self.align = Some(Alignment::Right);
            assert(self.view() =~= Scan { align: Some(Alignment::Right), ..st });
            return StepExec::Continue;
        }
        if c == '!' && opts.defer && m != ParserState::PlaceholderAnsiStyle {
            if self.deferred == u16::MAX {
                return StepExec::Abort;
            }
            self.deferred = self.deferred + 1;
            assert(self.view() =~= Scan { deferred: (st.deferred + 1) as u16, ..st });
            return StepExec::Continue;
        }
        if m == ParserState::PlaceholderParams && c == '+' {
            self.sign = Some('+');
            assert(self.view() =~= Scan { sign: Some('+'), ..st });
            return StepExec::Continue;
        }
        if m == ParserState::PlaceholderParams && c == '-' {
            self.sign = Some('-');
            assert(self.view() =~= Scan { sign: Some('-'), ..st });
            return StepExec::Continue;
        }
        if m == ParserState::PlaceholderParams && c == '#' {
            self.alt = true;
            assert(self.view() =~= Scan { alt: true, ..st });
            return StepExec::Continue;
        }
        if m == ParserState::PlaceholderParams && c == '0' {
            self.zero = true;
            assert(self.view() =~= Scan { zero: true, ..st });
            return StepExec::Continue;
        }
        if m == ParserState::PlaceholderWidth && c == '%' && opts.relative_width && self.width.is_some() {
            match percent_next_of(self.width.unwrap()) {
                Some(w) => {
                    self.width = Some(w);
                    assert(self.view() =~= Scan { width: Some(w), ..st });
                    return StepExec::Continue;
                },
                None => {
                    return StepExec::Fail(make_error(i, String::from_str("at most two '%'s are allowed")));
                },
            }
        }
        if m == ParserState::PlaceholderPrecision && c == '%' && opts.relative_width && self.width.is_some() {
            match self.precision {
                None => {
                    return StepExec::Fail(make_error(i, String::from_str("'%' needs a precision before it")));
                },
                Some(p) => match percent_next_of(p) {
                    Some(q) => {
                        self.precision = Some(q);
                        assert(self.view() =~= Scan { precision: Some(q), ..st });
                        return StepExec::Continue;
                    },
                    None => {
                        return StepExec::Fail(make_error(i, String::from_str("at most two '%'s are allowed")));
                    },
                },
            }
        }
        if (m == ParserState::PlaceholderParams || m == ParserState::PlaceholderWidth) && c == '.' {
            self.mode = ParserState::PlaceholderPrecision;
            assert(self.view() =~= with_mode(st, ParserState::PlaceholderPrecision));
            return StepExec::Continue;
        }
        if (m == ParserState::PlaceholderParams && '1' <= c && c <= '9')
            || (m == ParserState::PlaceholderWidth && '0' <= c && c <= '9') {
            match width_digit(self.width, c) {
                Some(w) => {
                    self.width = Some(w);
                    self.mode = ParserState::PlaceholderWidth;
                    assert(self.view() =~= Scan { width: Some(w), mode: ParserState::PlaceholderWidth, ..st });
                    return StepExec::Continue;
                },
                None => {
                    return StepExec::Abort;
                },
            }
        }
        if m == ParserState::PlaceholderPrecision && '0' <= c && c <= '9' {
            match width_digit(self.precision, c) {
                Some(p) => {
                    self.precision = Some(p);
                    assert(self.view() =~= Scan { precision: Some(p), ..st });
                    return StepExec::Continue;
                },
                None => {
                    return StepExec::Abort;
                },
            }
        }
        if m != ParserState::PlaceholderAnsiStyle && c == '$' && opts.style {
            self.ansi_style = Some(Vec::new());
            self.mode = ParserState::PlaceholderAnsiStyle;
            assert(self.view() =~= Scan { ansi_style: Some(Seq::empty()), mode: ParserState::PlaceholderAnsiStyle, ..st });
            return StepExec::Continue;
        }
        if c == '@' && opts.extra_args {
            self.mode = ParserState::PlaceholderExtraArgs;
            assert(self.view() =~= with_mode(st, ParserState::PlaceholderExtraArgs));
            return StepExec::Continue;
        }
        if m == ParserState::PlaceholderAnsiStyle {
            match &mut self.ansi_style {
                Some(a) => {
                    a.push(c);
                },
                None => {},
            }
            assert(self.view() =~= Scan {
                ansi_style: match st.ansi_style {
                    Some(a) => Some(a.push(c)),
                    None => None,
                },
                ..st
            });
            return StepExec::Continue;
        }
        if flag_accepted(opts, c) {
            self.extra_flags.push(c);
            assert(self.view() =~= Scan { extra_flags: st.extra_flags.push(c), ..st });
            return StepExec::Continue;
        }
        StepExec::Fail(make_error(i, message_with_char("invalid char '", c, "'")))
    }

    /// One transition of the parser.
    fn step(&mut self, opts: &ParseOptions, c: char, next: Option<char>, i: usize) -> (r: StepExec)
        requires
            old(self).nested <= i,
            i < usize::MAX,
        ensures
            step_matches(r, step(opts@, old(self).view(), c, next, i as nat), final(self).view()),
            final(self).nested <= i + 1,
    {
        let align_next = match next {
            Some(n) => n == '<' || n == '^' || n == '>',
            None => false,
        };
        if self.mode == ParserState::PlaceholderFillAlign && !align_next {
            self.mode = ParserState::PlaceholderParams;
        }
        let ghost st = self.view();
        assert(st =~= (if old(self).view().mode == ParserState::PlaceholderFillAlign && !(next is Some
            && is_align_char(next.unwrap())) {
            with_mode(old(self).view(), ParserState::PlaceholderParams)
        } else {
            old(self).view()
        }));
        match self.mode {
            ParserState::Literal => {
                if c == '{' {
                    self.mode = ParserState::OneOpenBrace;
                    assert(self.view() =~= with_mode(st, ParserState::OneOpenBrace));
                } else if c == '}' {
                    self.mode = ParserState::OneCloseBrace;
                    assert(self.view() =~= with_mode(st, ParserState::OneCloseBrace));
                } else {
                    self.buffer.push(c);
                    assert(self.view() =~= push_buffer(st, ParserState::Literal, c));
                }
                StepExec::Continue
            },
            ParserState::OneOpenBrace => {
                if c == '{' {
                    self.mode = ParserState::Literal;
                    self.buffer.push('{');
                    assert(self.view() =~= push_buffer(st, ParserState::Literal, '{'));
                    StepExec::Continue
                } else if c == ':' {
                    StepExec::Fail(make_error(i, String::from_str("invalid empty placeholder name")))
                } else if c == '}' {
                    StepExec::Fail(make_error(i, String::from_str("invalid empty placeholder")))
                } else {
                    self.flush_buffer();
                    self.buffer.push(c);
                    self.mode = ParserState::PlaceholderName;
                    assert(self.view() =~= Scan {
                        mode: ParserState::PlaceholderName,
                        parts: flush(st.parts, st.buffer),
                        buffer: seq![c],
                        ..st
                    });
                    StepExec::Continue
                }
            },
            ParserState::PlaceholderExtraArgs => {
                if c == '{' {
                    self.extra_args.push('{');
                    self.nested = self.nested + 1;
                    assert(self.view() =~= Scan { extra_args: st.extra_args.push('{'), nested: st.nested + 1, ..st });
                } else if c == '}' && self.nested > 0 {
                    self.extra_args.push('}');
                    self.nested = self.nested - 1;
                    assert(self.view() =~= Scan {
                        extra_args: st.extra_args.push('}'),
                        nested: (st.nested - 1) as nat,
                        ..st
                    });
                } else if c == '}' {
                    self.close();
                } else {
                    self.extra_args.push(c);
                    assert(self.view() =~= Scan { extra_args: st.extra_args.push(c), ..st });
                }
                StepExec::Continue
            },
            ParserState::PlaceholderName => {
                if c == '}' {
                    self.close();
                } else if c == ':' {
                    self.mode = ParserState::PlaceholderFillAlign;
                    assert(self.view() =~= with_mode(st, ParserState::PlaceholderFillAlign));
                } else {
                    self.buffer.push(c);
                    assert(self.view() =~= push_buffer(st, ParserState::PlaceholderName, c));
                }
                StepExec::Continue
            },
            ParserState::PlaceholderFillAlign => {
                self.fill = Some(c);
                self.mode = ParserState::PlaceholderParams;
                assert(self.view() =~= Scan { fill: Some(c), mode: ParserState::PlaceholderParams, ..st });
                StepExec::Continue
            },
            ParserState::OneCloseBrace => {
                if c == '}' {
                    self.mode = ParserState::Literal;
                    self.buffer.push('}');
                    assert(self.view() =~= push_buffer(st, ParserState::Literal, '}'));
                    StepExec::Continue
                } else {
                    StepExec::Fail(make_error(i, message_with_char("unexpected character '", c, "' after '}'")))
                }
            },
            _ => self.step_specifier(opts, c, i),
        }
    }
}

/// Once the parser has failed or aborted, later characters change nothing.
proof fn lemma_run_stays_stopped(opts: ParseConfig, chars: Seq<char>, i: nat, n: nat)
    requires
        i <= n,
        !(run(opts, chars, i) is Next),
    ensures
        run(opts, chars, n) == run(opts, chars, i),
    decreases n - i,
{
    if n > i {
        lemma_run_stays_stopped(opts, chars, i, (n - 1) as nat);
    }
}

/// Parses `template` under `options`, or returns `None` where the parser
/// aborts (see [`Step`]).
pub fn try_parse_template(template: &str, options: ParseOptions) -> (r: Option<Result<Vec<TemplatePart>, TemplateError>>)
    ensures
        match parse_outcome(options@, template@) {
            ParseOutcome::Parsed(ps) => match r {
                Some(Ok(v)) => parts_view(v@) == ps,
                _ => false,
            },
            ParseOutcome::Failed(j, m) => match r {
                Some(Err(e)) => e.char_index == j && e.message@ == m,
                _ => false,
            },
            ParseOutcome::Aborted => r is None,
        },
{
    let chars = chars_of(template);
    let n = chars.len();
    let mut sc = Scanner::new();
    let mut i: usize = 0;
    while i < n
        invariant
            n == chars@.len(),
            chars@ == template@,
            i <= n,
            sc.nested <= i,
            run(options@, chars@, i as nat) == Step::Next(sc.view()),
        decreases n - i,
    {
        let next = if i + 1 < n { Some(chars[i + 1]) } else { None };
        assert(next == lookahead(chars@, i as nat));
        let ghost before = sc.view();
        let r = sc.step(&options, chars[i], next, i);
        assert(run(options@, chars@, (i + 1) as nat) == step(options@, before, chars@[i as int], next, i as nat));
        match r {
            StepExec::Continue => {},
            StepExec::Fail(e) => {
                proof {
                    lemma_run_stays_stopped(options@, chars@, (i + 1) as nat, n as nat);
                }
                return Some(Err(e));
            },
            StepExec::Abort => {
                proof {
                    lemma_run_stays_stopped(options@, chars@, (i + 1) as nat, n as nat);
                }
                return None;
            },
        }
        i = i + 1;
    }
    if sc.mode != ParserState::Literal {
        let mut message = String::from_str("unterminated format specifier: left in state ");
        message.append(state_name_str(sc.mode));
        return Some(Err(make_error(n, message)));
    }
    sc.flush_buffer();
    Some(Ok(sc.parts))
}

/// Parses `template` under `options`.
pub fn parse_template(template: &str, options: ParseOptions) -> (r: Result<Vec<TemplatePart>, TemplateError>)
    requires
        !(parse_outcome(options@, template@) is Aborted),
    ensures
        match parse_outcome(options@, template@) {
            ParseOutcome::Parsed(ps) => match r {
                Ok(v) => parts_view(v@) == ps,
                _ => false,
            },
            ParseOutcome::Failed(j, m) => match r {
                Err(e) => e.char_index == j && e.message@ == m,
                _ => false,
            },
            ParseOutcome::Aborted => false,
        },
{
    match try_parse_template(template, options) {
        Some(r) => r,
        None => {
            assert(false);
            Err(make_error(0, String::new()))
        },
    }
}


impl TemplateError {
    /// The error as text: `template error at position N: MESSAGE` and a newline.
    pub fn to_string(&self) -> (s: String)
        ensures
            s@ == "template error at position "@ + decimal(self.char_index as nat) + ": "@ + self.message@ + "\n"@,
    {
        let mut v: Vec<char> = Vec::new();
        push_decimal(&mut v, self.char_index as u64);
        let mut s = String::from_str("template error at position ");
        s.append(string_from_chars(v.as_slice()).as_str());
        s.append(": ");
        s.append(self.message.as_str());
        s.append("\n");
        s
    }
}


/// The std formatting options that a placeholder's specifiers describe, with
/// relative widths resolved against `total` and `avail`.
pub open spec fn format_spec_of(p: PlaceholderView, total: int, avail: int) -> FormatSpec {
    FormatSpec {
        fill: match p.fill {
            Some(c) => c,
            None => ' ',
        },
        align: p.align,
        width: match p.width {
            Some(w) => Some(resolved(w, total, avail) as usize),
            None => None,
        },
        precision: match p.precision {
            Some(w) => Some(resolved(w, total, avail) as usize),
            None => None,
        },
        sign_plus: p.sign == Some('+'),
        alternate: p.alt,
        zero_pad: p.zero,
    }
}

/// Whether resolving a width or precision against `cols` columns stays
/// within the machine's integers (`cols` times the number).
pub open spec fn resolves_within(w: Option<WidthPrecisionSpec>, cols: int) -> bool {
    match w {
        Some(x) => cols * wps_number(x) <= usize::MAX,
        None => true,
    }
}

/// Whether a placeholder's width and precision resolve against `cols`
/// columns within the machine's integers.
pub open spec fn placeholder_resolves(p: PlaceholderView, cols: int) -> bool {
    resolves_within(p.width, cols) && resolves_within(p.precision, cols)
}

/// A placeholder that resolves against some columns resolves against fewer.
pub proof fn lemma_resolves_fewer(p: PlaceholderView, cols: int, fewer: int)
    requires
        0 <= fewer <= cols,
        placeholder_resolves(p, cols),
    ensures
        placeholder_resolves(p, fewer),
{
    if let Some(x) = p.width {
        assert(fewer * wps_number(x) <= cols * wps_number(x)) by (nonlinear_arith)
            requires
                0 <= fewer <= cols,
                wps_number(x) >= 0,
        ;
    }
    if let Some(x) = p.precision {
        assert(fewer * wps_number(x) <= cols * wps_number(x)) by (nonlinear_arith)
            requires
                0 <= fewer <= cols,
                wps_number(x) >= 0,
        ;
    }
}

/// The formatting options of a placeholder part.
pub fn placeholder_format(part: &TemplatePart, total: usize, avail: usize) -> (f: FormatSpec)
    requires
        part@ matches PartView::Placeholder(p) && placeholder_resolves(p, total as int) && placeholder_resolves(
            p,
            avail as int,
        ),
    ensures
        part@ matches PartView::Placeholder(p) && f == format_spec_of(p, total as int, avail as int),
{
    match part {
        TemplatePart::Placeholder { fill, align, width, precision, sign, alt, zero, .. } => {
            let w = match width {
                Some(x) => Some(x.resolve(total, avail) as usize),
                None => None,
            };
            let pr = match precision {
                Some(x) => Some(x.resolve(total, avail) as usize),
                None => None,
            };
            let plus = match sign {
                Some(c) => *c == '+',
                None => false,
            };
            FormatSpec {
                fill: match fill {
                    Some(c) => *c,
                    None => ' ',
                },
                align: *align,
                width: w,
                precision: pr,
                sign_plus: plus,
                alternate: *alt,
                zero_pad: *zero,
            }
        },
        TemplatePart::Literal(_) => {
            assert(false);
            FormatSpec::plain()
        },
    }
}

} // verus!
