//! Properties that hold of every template the parser accepts.
use vstd::prelude::*;
use crate::format::parser::ParseConfig;
use crate::format::parser::PlaceholderView;
use crate::format::parser::Scan;
use crate::format::parser::Step;
use crate::format::parser::ParseOutcome;
use crate::format::parser::PartView;
use crate::format::parser::ParserState;
use crate::format::parser::close_placeholder;
use crate::format::parser::placeholder_of;
use crate::format::parser::step_specifier;
use crate::format::parser::step;
use crate::format::parser::flush;
use crate::format::parser::with_mode;
use crate::format::parser::push_buffer;
use crate::format::parser::initial_scan;
use crate::format::parser::run;
use crate::format::parser::lookahead;
use crate::format::parser::parse_outcome;
use crate::format::parser::is_align_char;
use crate::format::parser::flag_ok;
use crate::text::Alignment;

verus! {

/// A placeholder respects the options: deferral only with `defer`,
/// percentage widths only with `relative_width`, extra arguments only with
/// `extra_args`, a style only with `style`, extra flags only from the flag
/// set, and a sign that is `+` or `-`.
pub open spec fn placeholder_allowed(opts: ParseConfig, p: PlaceholderView) -> bool {
    &&& (p.deferred > 0 ==> opts.defer)
    &&& (p.width is Some && !(p.width.unwrap() is Absolute) ==> opts.relative_width)
    &&& (p.precision is Some && !(p.precision.unwrap() is Absolute) ==> opts.relative_width)
    &&& (p.extra_args is Some ==> opts.extra_args && p.extra_args.unwrap().len() > 0)
    &&& (p.ansi_style is Some ==> opts.style)
    &&& flags_ok(opts, p.extra_flags)
    &&& (p.sign is Some ==> p.sign == Some('+') || p.sign == Some('-'))
}

/// Every flag is one the options accept.
pub open spec fn flags_ok(opts: ParseConfig, flags: Seq<char>) -> bool {
    forall|j: int| 0 <= j < flags.len() ==> flag_ok(opts, #[trigger] flags[j])
}

proof fn lemma_flags_push(opts: ParseConfig, flags: Seq<char>, c: char)
    requires
        flags_ok(opts, flags),
        flag_ok(opts, c),
    ensures
        flags_ok(opts, flags.push(c)),
{
    let f = flags.push(c);
    assert forall|j: int| 0 <= j < f.len() implies flag_ok(opts, #[trigger] f[j]) by {
        if j < flags.len() {
            assert(f[j] == flags[j]);
        }
    }
}

/// A placeholder key is non-empty and holds neither `:` nor `}`.
pub open spec fn key_ok(key: Seq<char>) -> bool {
    &&& key.len() > 0
    &&& forall|j: int| 0 <= j < key.len() ==> #[trigger] key[j] != ':' && key[j] != '}'
}

/// The shape of a parse result: each placeholder records its own position
/// in `part_idx` and has a valid key and allowed specifiers; each literal is
/// non-empty; no two literals are adjacent.
pub open spec fn parts_ok(opts: ParseConfig, ps: Seq<PartView>) -> bool {
    &&& forall|k: int| 0 <= k < ps.len() ==> match #[trigger] ps[k] {
        PartView::Placeholder(p) => p.part_idx == k && key_ok(p.key) && placeholder_allowed(opts, p),
        PartView::Literal(t) => t.len() > 0,
    }
    &&& forall|k: int| 0 <= k < ps.len() - 1 ==> !(#[trigger] ps[k] is Literal && ps[k + 1] is Literal)
}

spec fn ends_with_placeholder(ps: Seq<PartView>) -> bool {
    ps.len() == 0 || ps.last() is Placeholder
}

spec fn in_placeholder(m: ParserState) -> bool {
    !(m == ParserState::Literal || m == ParserState::OneOpenBrace || m == ParserState::OneCloseBrace)
}

/// What holds of every state the parser reaches.
spec fn scan_ok(opts: ParseConfig, st: Scan) -> bool {
    &&& parts_ok(opts, st.parts)
    &&& (!in_placeholder(st.mode) ==> ends_with_placeholder(st.parts))
    &&& (in_placeholder(st.mode) ==> key_ok(st.buffer))
    &&& (st.mode == ParserState::PlaceholderExtraArgs ==> opts.extra_args)
    &&& (st.mode == ParserState::PlaceholderAnsiStyle ==> opts.style && st.ansi_style is Some)
    &&& placeholder_allowed(opts, placeholder_of(st))
}

proof fn lemma_close_ok(opts: ParseConfig, st: Scan)
    requires
        scan_ok(opts, st),
        in_placeholder(st.mode),
    ensures
        scan_ok(opts, close_placeholder(st)),
{
    let ps = close_placeholder(st).parts;
    assert(ps.last() is Placeholder);
    assert forall|k: int| 0 <= k < ps.len() - 1 implies !(#[trigger] ps[k] is Literal && ps[k + 1] is Literal) by {
        if k + 1 < st.parts.len() {
            assert(ps[k] == st.parts[k] && ps[k + 1] == st.parts[k + 1]);
        }
    }
    assert forall|k: int| 0 <= k < ps.len() implies match #[trigger] ps[k] {
        PartView::Placeholder(p) => p.part_idx == k && key_ok(p.key) && placeholder_allowed(opts, p),
        PartView::Literal(t) => t.len() > 0,
    } by {
        if k < st.parts.len() {
            assert(ps[k] == st.parts[k]);
        }
    }
}

proof fn lemma_specifier_ok(opts: ParseConfig, st: Scan, c: char, i: nat)
    requires
        scan_ok(opts, st),
        st.mode == ParserState::PlaceholderParams || st.mode == ParserState::PlaceholderWidth
            || st.mode == ParserState::PlaceholderPrecision || st.mode == ParserState::PlaceholderAnsiStyle,
    ensures
        step_specifier(opts, st, c, i) matches Step::Next(st2) ==> scan_ok(opts, st2),
{
    if c == '}' {
        lemma_close_ok(opts, st);
    } else if let Step::Next(st2) = step_specifier(opts, st, c, i) {
        if st2.extra_flags != st.extra_flags {
            assert(flag_ok(opts, c) && st2.extra_flags == st.extra_flags.push(c));
            lemma_flags_push(opts, st.extra_flags, c);
        }
    }
}

proof fn lemma_open_ok(opts: ParseConfig, st: Scan, c: char)
    requires
        scan_ok(opts, st),
        st.mode == ParserState::OneOpenBrace,
        c != '{' && c != ':' && c != '}',
    ensures
        scan_ok(opts, Scan { mode: ParserState::PlaceholderName, parts: flush(st.parts, st.buffer), buffer: seq![c], ..st }),
{
    let st2 = Scan { mode: ParserState::PlaceholderName, parts: flush(st.parts, st.buffer), buffer: seq![c], ..st };
    let ps = st2.parts;
    if st.buffer.len() > 0 {
        assert forall|k: int| 0 <= k < ps.len() - 1 implies !(#[trigger] ps[k] is Literal && ps[k + 1] is Literal) by {
            if k + 1 < st.parts.len() {
                assert(ps[k] == st.parts[k] && ps[k + 1] == st.parts[k + 1]);
            }
        }
        assert forall|k: int| 0 <= k < ps.len() implies match #[trigger] ps[k] {
            PartView::Placeholder(p) => p.part_idx == k && key_ok(p.key) && placeholder_allowed(opts, p),
            PartView::Literal(t) => t.len() > 0,
        } by {
            if k < st.parts.len() {
                assert(ps[k] == st.parts[k]);
            }
        }
    }
    assert(key_ok(st2.buffer));
}

proof fn lemma_name_ok(opts: ParseConfig, st: Scan, c: char)
    requires
        scan_ok(opts, st),
        st.mode == ParserState::PlaceholderName,
        c != '}' && c != ':',
    ensures
        scan_ok(opts, push_buffer(st, ParserState::PlaceholderName, c)),
{
    let b = st.buffer.push(c);
    assert forall|j: int| 0 <= j < b.len() implies #[trigger] b[j] != ':' && b[j] != '}' by {
        if j < st.buffer.len() {
            assert(b[j] == st.buffer[j]);
        }
    }
}

proof fn lemma_step_ok(opts: ParseConfig, st0: Scan, c: char, next: Option<char>, i: nat)
    requires
        scan_ok(opts, st0),
    ensures
        step(opts, st0, c, next, i) matches Step::Next(st2) ==> scan_ok(opts, st2),
{
    let st = if st0.mode == ParserState::PlaceholderFillAlign && !(next is Some && is_align_char(next.unwrap())) {
        with_mode(st0, ParserState::PlaceholderParams)
    } else {
        st0
    };
    assert(scan_ok(opts, st));
    match st.mode {
        ParserState::OneOpenBrace => {
            if c != '{' && c != ':' && c != '}' {
                lemma_open_ok(opts, st, c);
            }
        },
        ParserState::PlaceholderExtraArgs => {
            if c == '}' && st.nested == 0 {
                lemma_close_ok(opts, st);
            }
        },
        ParserState::PlaceholderName => {
            if c == '}' {
                lemma_close_ok(opts, st);
            } else if c != ':' {
                lemma_name_ok(opts, st, c);
            }
        },
        ParserState::Literal => {},
        ParserState::OneCloseBrace => {},
        ParserState::PlaceholderFillAlign => {},
        _ => {
            lemma_specifier_ok(opts, st, c, i);
        },
    }
}

/// Every state the parser reaches is well formed, and a failure at step `i`
/// names an index below `i`.
proof fn lemma_run_ok(opts: ParseConfig, chars: Seq<char>, i: nat)
    ensures
        run(opts, chars, i) matches Step::Next(st) ==> scan_ok(opts, st),
        run(opts, chars, i) matches Step::Fail(j, _) ==> j < i,
    decreases i,
{
    if i == 0 {
        assert(scan_ok(opts, initial_scan()));
    } else {
        lemma_run_ok(opts, chars, (i - 1) as nat);
        if let Step::Next(st) = run(opts, chars, (i - 1) as nat) {
            lemma_step_ok(opts, st, chars[i - 1], lookahead(chars, (i - 1) as nat), (i - 1) as nat);
        }
    }
}

/// Law: every parse result is well formed: each placeholder's `part_idx` is
/// its own index in the result, its key is non-empty without `:` or `}`, and
/// its specifiers use only the extensions that the options enable; literals
/// are non-empty and never adjacent. An error names an index within the
/// template (at most its length).
pub proof fn law_parse_result_shape(opts: ParseConfig, chars: Seq<char>)
    ensures
        parse_outcome(opts, chars) matches ParseOutcome::Parsed(ps) ==> parts_ok(opts, ps),
        parse_outcome(opts, chars) matches ParseOutcome::Failed(j, _) ==> j <= chars.len(),
{
    lemma_run_ok(opts, chars, chars.len());
    if let Step::Next(st) = run(opts, chars, chars.len()) {
        if st.mode == ParserState::Literal {
            let ps = flush(st.parts, st.buffer);
            if st.buffer.len() > 0 {
                assert forall|k: int| 0 <= k < ps.len() - 1 implies !(#[trigger] ps[k] is Literal
                    && ps[k + 1] is Literal) by {
                    if k + 1 < st.parts.len() {
                        assert(ps[k] == st.parts[k] && ps[k + 1] == st.parts[k + 1]);
                    }
                }
                assert forall|k: int| 0 <= k < ps.len() implies match #[trigger] ps[k] {
                    PartView::Placeholder(p) => p.part_idx == k && key_ok(p.key) && placeholder_allowed(opts, p),
                    PartView::Literal(t) => t.len() > 0,
                } by {
                    if k < st.parts.len() {
                        assert(ps[k] == st.parts[k]);
                    }
                }
            }
        }
    }
}


/// `t` with every brace doubled, which is how literal braces are written in
/// a template.
pub open spec fn escape_braces(t: Seq<char>) -> Seq<char>
    decreases t.len(),
{
    if t.len() == 0 {
        Seq::empty()
    } else {
        let c = t.last();
        if c == '{' || c == '}' {
            escape_braces(t.drop_last()) + seq![c, c]
        } else {
            escape_braces(t.drop_last()).push(c)
        }
    }
}

/// What a template made of literal text alone parses to.
pub open spec fn literal_parts(t: Seq<char>) -> Seq<PartView> {
    if t.len() == 0 {
        Seq::empty()
    } else {
        seq![PartView::Literal(t)]
    }
}

proof fn lemma_escape_concat(a: Seq<char>, b: Seq<char>)
    ensures
        escape_braces(a + b) == escape_braces(a) + escape_braces(b),
    decreases b.len(),
{
    if b.len() == 0 {
        assert(a + b =~= a);
        assert(escape_braces(a) + escape_braces(b) =~= escape_braces(a));
    } else {
        lemma_escape_concat(a, b.drop_last());
        assert((a + b).drop_last() =~= a + b.drop_last());
        assert((a + b).last() == b.last());
        let c = b.last();
        if c == '{' || c == '}' {
            assert(escape_braces(a) + escape_braces(b) =~= escape_braces(a) + escape_braces(b.drop_last()) + seq![c, c]);
        } else {
            assert(escape_braces(a) + escape_braces(b) =~= (escape_braces(a) + escape_braces(b.drop_last())).push(c));
        }
    }
}

/// While reading escaped text, the parser stays in the literal state with
/// the unescaped text so far as its pending literal.
proof fn lemma_run_escaped(opts: ParseConfig, t: Seq<char>, k: nat)
    requires
        k <= t.len(),
    ensures
        run(opts, escape_braces(t), escape_braces(t.take(k as int)).len())
            == Step::Next(Scan { buffer: t.take(k as int), ..initial_scan() }),
    decreases k,
{
    let chars = escape_braces(t);
    if k == 0 {
        assert(t.take(0) =~= Seq::<char>::empty());
        assert(Scan { buffer: t.take(0), ..initial_scan() } =~= initial_scan());
    } else {
        lemma_run_escaped(opts, t, (k - 1) as nat);
        let prev = escape_braces(t.take(k - 1));
        let cur = escape_braces(t.take(k as int));
        let c = t[k - 1];
        assert(t.take(k as int).drop_last() =~= t.take(k - 1));
        assert(t.take(k as int).last() == c);
        lemma_escape_concat(t.take(k as int), t.skip(k as int));
        assert(t.take(k as int) + t.skip(k as int) =~= t);
        let n0 = prev.len();
        let st0 = Scan { buffer: t.take(k - 1), ..initial_scan() };
        let st1 = Scan { buffer: t.take(k as int), ..initial_scan() };
        if c == '{' || c == '}' {
            assert(cur =~= prev + seq![c, c]);
            assert(chars[n0 as int] == c);
            assert(chars[n0 + 1 as int] == c);
            let mid = if c == '{' {
                with_mode(st0, ParserState::OneOpenBrace)
            } else {
                with_mode(st0, ParserState::OneCloseBrace)
            };
            assert(run(opts, chars, n0 + 1) == Step::Next(mid));
            assert(push_buffer(mid, ParserState::Literal, c) =~= st1);
            assert(run(opts, chars, n0 + 2) == Step::Next(st1));
        } else {
            assert(cur =~= prev.push(c));
            assert(chars[n0 as int] == c);
            assert(push_buffer(st0, ParserState::Literal, c) =~= st1);
            assert(run(opts, chars, n0 + 1) == Step::Next(st1));
        }
    }
}

/// Law: doubling every brace of any text gives a template that parses back
/// to that text as a single literal (nothing, for empty text), whatever the
/// options.
pub proof fn law_escaped_text_is_literal(opts: ParseConfig, t: Seq<char>)
    ensures
        parse_outcome(opts, escape_braces(t)) == ParseOutcome::Parsed(literal_parts(t)),
{
    lemma_run_escaped(opts, t, t.len());
    assert(t.take(t.len() as int) =~= t);
    let st = Scan { buffer: t, ..initial_scan() };
    assert(flush(st.parts, st.buffer) =~= literal_parts(t));
}

proof fn lemma_escape_plain(t: Seq<char>)
    requires
        forall|j: int| 0 <= j < t.len() ==> #[trigger] t[j] != '{' && t[j] != '}',
    ensures
        escape_braces(t) == t,
    decreases t.len(),
{
    if t.len() > 0 {
        lemma_escape_plain(t.drop_last());
        assert(t.drop_last().push(t.last()) =~= t);
    }
}

/// Law: text without braces parses to itself as a single literal (nothing,
/// for empty text), whatever the options.
pub proof fn law_plain_text_is_literal(opts: ParseConfig, t: Seq<char>)
    requires
        forall|j: int| 0 <= j < t.len() ==> #[trigger] t[j] != '{' && t[j] != '}',
    ensures
        parse_outcome(opts, t) == ParseOutcome::Parsed(literal_parts(t)),
{
    lemma_escape_plain(t);
    law_escaped_text_is_literal(opts, t);
}


/// The state while a placeholder's name is read: the name so far in the
/// buffer, nothing else.
pub open spec fn naming(name: Seq<char>) -> Scan {
    Scan { mode: ParserState::PlaceholderName, buffer: name, ..initial_scan() }
}

/// Whether a text can be a placeholder's whole name: not empty, with no
/// brace and no `:`.
pub open spec fn plain_name(k: Seq<char>) -> bool {
    k.len() > 0 && forall|i: int| 0 <= i < k.len() ==> #[trigger] k[i] != '}' && k[i] != ':' && k[i] != '{'
}

proof fn lemma_reading_name(opts: ParseConfig, k: Seq<char>, m: nat)
    requires
        plain_name(k),
        1 <= m <= k.len(),
    ensures
        run(opts, seq!['{'] + k + seq!['}'], m + 1) == Step::Next(naming(k.take(m as int))),
    decreases m,
{
    let chars = seq!['{'] + k + seq!['}'];
    reveal_with_fuel(run, 3);
    assert(chars[0] == '{');
    assert(run(opts, chars, 0) == Step::Next(initial_scan()));
    assert(run(opts, chars, 1) == Step::Next(with_mode(initial_scan(), ParserState::OneOpenBrace)));
    if m == 1 {
        assert(chars[1] == k[0]);
        assert(k.take(1) =~= seq![k[0]]);
        assert(flush(Seq::<PartView>::empty(), Seq::<char>::empty()) == Seq::<PartView>::empty());
        assert(run(opts, chars, 2) == Step::Next(naming(k.take(1))));
    } else {
        lemma_reading_name(opts, k, (m - 1) as nat);
        assert(chars[m as int] == k[m - 1]);
        assert(k.take(m - 1).push(k[m - 1]) =~= k.take(m as int));
        assert(run(opts, chars, m + 1) == Step::Next(naming(k.take(m as int))));
    }
}

proof fn lemma_reading_name_in(opts: ParseConfig, chars: Seq<char>, k: Seq<char>, m: nat)
    requires
        plain_name(k),
        1 <= m <= k.len(),
        chars.len() > m,
        chars[0] == '{',
        forall|j: int| 0 <= j < m ==> chars[j + 1] == k[j],
    ensures
        run(opts, chars, m + 1) == Step::Next(naming(k.take(m as int))),
    decreases m,
{
    reveal_with_fuel(run, 3);
    assert(run(opts, chars, 0) == Step::Next(initial_scan()));
    assert(run(opts, chars, 1) == Step::Next(with_mode(initial_scan(), ParserState::OneOpenBrace)));
    if m == 1 {
        assert(chars[1] == k[0]);
        assert(k.take(1) =~= seq![k[0]]);
        assert(flush(Seq::<PartView>::empty(), Seq::<char>::empty()) == Seq::<PartView>::empty());
        assert(run(opts, chars, 2) == Step::Next(naming(k.take(1))));
    } else {
        lemma_reading_name_in(opts, chars, k, (m - 1) as nat);
        assert(chars[m as int] == k[m - 1]);
        assert(k.take(m - 1).push(k[m - 1]) =~= k.take(m as int));
        assert(run(opts, chars, m + 1) == Step::Next(naming(k.take(m as int))));
    }
}

/// Law: a placeholder written as a plain name in braces parses to one
/// placeholder with that name, at index 0, and no specifier at all, under
/// any options.
pub proof fn law_bare_placeholder(opts: ParseConfig, k: Seq<char>)
    requires
        plain_name(k),
    ensures
        parse_outcome(opts, seq!['{'] + k + seq!['}']) == ParseOutcome::Parsed(
            seq![
                PartView::Placeholder(
                    PlaceholderView {
                        part_idx: 0,
                        key: k,
                        alt: false,
                        zero: false,
                        sign: None,
                        fill: None,
                        align: None,
                        width: None,
                        precision: None,
                        deferred: 0,
                        extra_args: None,
                        extra_flags: Seq::empty(),
                        ansi_style: None,
                    },
                ),
            ],
        ),
{
    let chars = seq!['{'] + k + seq!['}'];
    let n = k.len();
    lemma_reading_name(opts, k, n);
    assert(k.take(n as int) =~= k);
    assert(chars.len() == n + 2);
    assert(chars[n + 1 as int] == '}');
    let closed = close_placeholder(naming(k));
    assert(run(opts, chars, n + 2) == Step::Next(closed));
    assert(flush(closed.parts, closed.buffer) =~= closed.parts);
}


/// The alignment that an alignment character names, as in Rust's format
/// syntax: `<` left, `^` centre, `>` right.
pub open spec fn named_alignment(a: char) -> Alignment {
    if a == '<' {
        Alignment::Left
    } else if a == '^' {
        Alignment::Center
    } else {
        Alignment::Right
    }
}

/// Law: in a placeholder `{k:ca}` whose `a` is one of `<`, `^` and `>`, the
/// character `c` before it is the fill and `a` names the alignment, whatever
/// `c` is and under any options.
pub proof fn law_fill_before_alignment(opts: ParseConfig, k: Seq<char>, c: char, a: char)
    requires
        plain_name(k),
        a == '<' || a == '^' || a == '>',
    ensures
        parse_outcome(opts, seq!['{'] + k + seq![':', c, a, '}']) == ParseOutcome::Parsed(
            seq![
                PartView::Placeholder(
                    PlaceholderView {
                        part_idx: 0,
                        key: k,
                        alt: false,
                        zero: false,
                        sign: None,
                        fill: Some(c),
                        align: Some(named_alignment(a)),
                        width: None,
                        precision: None,
                        deferred: 0,
                        extra_args: None,
                        extra_flags: Seq::empty(),
                        ansi_style: None,
                    },
                ),
            ],
        ),
{
    let chars = seq!['{'] + k + seq![':', c, a, '}'];
    let n = k.len();
    lemma_reading_name_in(opts, chars, k, n);
    assert(k.take(n as int) =~= k);
    assert(chars.len() == n + 5);
    assert(chars[n + 1 as int] == ':');
    assert(chars[n + 2 as int] == c);
    assert(chars[n + 3 as int] == a);
    assert(chars[n + 4 as int] == '}');
    let s1 = naming(k);
    assert(run(opts, chars, n + 1) == Step::Next(s1));
    let s2 = with_mode(s1, ParserState::PlaceholderFillAlign);
    assert(run(opts, chars, n + 2) == Step::Next(s2));
    assert(lookahead(chars, n + 2) == Some(a));
    assert(is_align_char(a));
    let s3 = Scan { fill: Some(c), mode: ParserState::PlaceholderParams, ..s2 };
    assert(run(opts, chars, n + 3) == Step::Next(s3));
    let s4 = Scan { align: Some(named_alignment(a)), ..s3 };
    assert(step_specifier(opts, s3, a, n + 3) == Step::Next(s4));
    assert(run(opts, chars, n + 4) == Step::Next(s4));
    let closed = close_placeholder(s4);
    assert(run(opts, chars, n + 5) == Step::Next(closed));
    assert(flush(closed.parts, closed.buffer) =~= closed.parts);
}



/// Law: in a placeholder `{k:a}` whose `a` is one of `<`, `^` and `>`, `a`
/// names the alignment and there is no fill, under any options.
pub proof fn law_alignment_without_fill(opts: ParseConfig, k: Seq<char>, a: char)
    requires
        plain_name(k),
        a == '<' || a == '^' || a == '>',
    ensures
        parse_outcome(opts, seq!['{'] + k + seq![':', a, '}']) == ParseOutcome::Parsed(
            seq![
                PartView::Placeholder(
                    PlaceholderView {
                        part_idx: 0,
                        key: k,
                        alt: false,
                        zero: false,
                        sign: None,
                        fill: None,
                        align: Some(named_alignment(a)),
                        width: None,
                        precision: None,
                        deferred: 0,
                        extra_args: None,
                        extra_flags: Seq::empty(),
                        ansi_style: None,
                    },
                ),
            ],
        ),
{
    let chars = seq!['{'] + k + seq![':', a, '}'];
    let n = k.len();
    lemma_reading_name_in(opts, chars, k, n);
    assert(k.take(n as int) =~= k);
    assert(chars.len() == n + 4);
    assert(chars[n + 1 as int] == ':');
    assert(chars[n + 2 as int] == a);
    assert(chars[n + 3 as int] == '}');
    let s1 = naming(k);
    let s2 = with_mode(s1, ParserState::PlaceholderFillAlign);
    assert(run(opts, chars, n + 2) == Step::Next(s2));
    assert(lookahead(chars, n + 2) == Some('}'));
    let s3 = with_mode(s2, ParserState::PlaceholderParams);
    let s4 = Scan { align: Some(named_alignment(a)), ..s3 };
    assert(step_specifier(opts, s3, a, n + 2) == Step::Next(s4));
    assert(run(opts, chars, n + 3) == Step::Next(s4));
    let closed = close_placeholder(s4);
    assert(run(opts, chars, n + 4) == Step::Next(closed));
    assert(flush(closed.parts, closed.buffer) =~= closed.parts);
}

} // verus!
