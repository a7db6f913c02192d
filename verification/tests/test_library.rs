use susume::format::duration::Duration;
use susume::format::duration::DurationFormatter;
use susume::format::duration::RelativeTime;
use susume::format::parser::parse_template;
use susume::format::parser::try_parse_template;
use susume::format::parser::ParseOptions;
use susume::format::parser::TemplatePart;
use susume::hierarchy::BarNode;
use susume::render::render_line;
use susume::render::render_with_answers;
use susume::render::template_fits;
use susume::render::BarValues;
use susume::render::LineOutcome;
use susume::render::PlaceholderFormatter;
use susume::state::increment_reach;
use susume::state::State;
use susume::style::default_progress_bar_chars;
use susume::style::Style;
use susume::target::padded_line;
use susume::target::reset_moves;
use susume::target::rows_up;
use susume::template::try_parse_template as try_parse_bar_template;
use susume::template::FmtItem;
use susume::template::PlaceholderKey;
use susume::text::FormatSpec;

fn values(message: &str, pos: u64, total: Option<u64>, ticks: u64) -> BarValues {
    BarValues {
        message: message.to_string(),
        prefix: String::new(),
        position: pos,
        total,
        ticks,
        elapsed: Duration::from_secs(0),
        remaining: Duration::from_secs(0),
        rate: 0,
        colors: false,
    }
}

fn render(template: &str, v: &BarValues, width: usize) -> LineOutcome {
    let style = Style::from_template(template).unwrap();
    let answers = vec![None; style.template().len()];
    render_with_answers(&style, v, width, &answers)
}

fn line(template: &str, v: &BarValues, width: usize) -> String {
    match render(template, v, width) {
        LineOutcome::Line(s) => s,
        LineOutcome::NoLine => panic!("no line"),
        LineOutcome::Panic => panic!("render panics"),
    }
}

// ---- bars ----

#[test]
fn bar_has_its_width_at_every_position() {
    for pos in 0..=37u64 {
        let l = line("{bar:10}", &values("", pos, Some(37), 0), 80);
        assert_eq!(l.chars().count(), 10, "at {pos}: {l}");
    }
}

#[test]
fn bar_is_full_at_and_past_the_end() {
    assert_eq!(line("{bar:6}", &values("", 40, Some(40), 0), 80), "━━━━━━");
    assert_eq!(line("{bar:6}", &values("", 90, Some(40), 0), 80), "━━━━━━");
    assert_eq!(line("{bar:6}", &values("", 3, Some(0), 0), 80), "━━━━━━");
}

#[test]
fn bar_is_empty_at_the_start() {
    assert_eq!(line("{bar:6}", &values("", 0, Some(40), 0), 80), "      ");
}

#[test]
fn bar_fill_never_shrinks_with_progress() {
    let filled = |pos: u64| line("{bar:9}", &values("", pos, Some(50), 0), 80).chars().filter(|c| *c == '━').count();
    for pos in 0..50u64 {
        assert!(filled(pos) <= filled(pos + 1));
    }
}

#[test]
fn bar_partial_cell_uses_half_cell_char() {
    // 1/4 of 2 cells is half a cell: the partial character is the middle one
    assert_eq!(line("{bar:2}", &values("", 1, Some(4), 0), 80), "╸ ");
}

#[test]
fn bar_width_is_capped_by_available_columns() {
    assert_eq!(line("ab{bar:10}", &values("", 10, Some(10), 0), 6), "ab━━━━");
}

#[test]
fn bouncer_moves_back_and_forth() {
    let at = |ticks: u64| line("{bar:10}", &values("", 0, None, ticks), 80);
    assert_eq!(at(0), "━━━━━     ");
    assert_eq!(at(3), "   ━━━━━  ");
    assert_eq!(at(5), "     ━━━━━");
    assert_eq!(at(7), "   ━━━━━  ");
    assert_eq!(at(10), "━━━━━     ");
    for t in 0..20u64 {
        assert_eq!(at(t).chars().count(), 10);
    }
}

#[test]
fn bouncer_wider_than_bar_leaves_spaces() {
    assert_eq!(line("{bar:3}", &values("", 0, None, 4), 80), "   ");
}

#[test]
fn bouncer_as_wide_as_bar_panics() {
    assert!(matches!(render("{bar:5}", &values("", 0, None, 1), 80), LineOutcome::Panic));
}

// ---- spinners, literals, keys ----

#[test]
fn spinner_cycles_through_its_frames() {
    let at = |ticks: u64| line("{spinner}", &values("", 0, None, ticks), 80);
    assert_eq!(at(0), "⢿⣿");
    assert_eq!(at(1), "⣻⣿");
    assert_eq!(at(11), "⡿⣿");
    assert_eq!(at(12), at(0));
    assert_eq!(at(25), at(1));
}

#[test]
fn quoted_key_prints_its_text() {
    assert_eq!(line("[{'foo':>5}]", &values("", 0, None, 0), 80), "[  foo]");
}

#[test]
fn unknown_key_without_formatter_panics() {
    assert!(matches!(render("{foo}", &values("", 0, None, 0), 80), LineOutcome::Panic));
}

#[test]
fn unsupported_numeric_args_panic() {
    assert!(matches!(render("{pos:@furlongs}", &values("", 0, None, 0), 80), LineOutcome::Panic));
}

#[test]
fn byte_count_past_the_unit_table_panics() {
    assert!(matches!(render("{pos:@bytes}", &values("", u64::MAX, None, 0), 80), LineOutcome::Panic));
}

#[test]
fn bad_duration_template_writes_no_line() {
    assert!(matches!(render("{elapsed:@{fortnights}}", &values("", 0, None, 0), 80), LineOutcome::NoLine));
}

#[test]
fn message_with_width_and_alignment() {
    assert_eq!(line("{msg:*^9}", &values("abc", 0, None, 0), 80), "***abc***");
}

#[test]
fn elapsed_in_human_form() {
    let mut v = values("", 0, None, 0);
    v.elapsed = Duration::from_secs(99665);
    assert_eq!(line("{elapsed}", &v, 80), "1d 3h 41m 5s");
    assert_eq!(line("{elapsed:@{hhmmss}}", &v, 80), "27:41:05");
}

#[test]
fn relative_width_uses_columns_left_by_others() {
    // "|" and "abc" are laid out first; the bar then takes 100% of the 16 left
    let l = line("{bar:100%%!}|{msg}", &values("abc", 0, Some(10), 0), 20);
    assert_eq!(l.chars().count(), 20);
    assert!(l.ends_with("|abc"));
}

#[test]
fn doubly_deferred_item_comes_last() {
    // the first deferred bar takes half of the 10 columns left, the second the rest
    let l = line("{bar:50%%!}{bar:100%%!!}", &values("", 0, Some(10), 0), 10);
    assert_eq!(l.chars().count(), 10);
}

// ---- the formatter ----

struct Shout;

impl PlaceholderFormatter for Shout {
    fn format(&self, key: &PlaceholderKey, _extra_args: &Option<String>, _spec: &FormatSpec, _avail: usize) -> Option<String> {
        match key {
            PlaceholderKey::Message => Some("HELLO".to_string()),
            PlaceholderKey::Custom(k) if k == "who" => Some("world".to_string()),
            _ => None,
        }
    }
}

#[test]
fn formatter_answers_override_and_fill_custom_keys() {
    let style = Style::from_template("{msg}, {who} {pos}").unwrap();
    let (out, answers) = render_line(&style, &values("hello", 7, None, 0), 80, &Shout);
    assert!(matches!(out, LineOutcome::Line(ref s) if s == "HELLO, world 7"));
    assert_eq!(answers.len(), 5);
    assert_eq!(answers[0].as_deref(), Some("HELLO"));
    assert_eq!(answers[1], None);
    assert_eq!(answers[2].as_deref(), Some("world"));
    assert_eq!(answers[4], None);
}

#[test]
fn given_answers_are_used_as_they_are() {
    let style = Style::from_template("{msg}-{percent}").unwrap();
    let answers = vec![Some("X".to_string()), None, Some("42".to_string())];
    let out = render_with_answers(&style, &values("m", 0, Some(1), 0), 80, &answers);
    assert!(matches!(out, LineOutcome::Line(ref s) if s == "X-42"));
}

#[test]
fn style_paints_only_with_colors() {
    let mut v = values("hi", 0, None, 0);
    assert_eq!(line("{msg:$red}", &v, 80), "hi");
    v.colors = true;
    let painted = line("{msg:$red}", &v, 80);
    assert_ne!(painted, "hi");
    assert!(painted.contains("hi"));
    assert!(painted.contains('\u{1b}'));
}

// ---- styles ----

#[test]
fn default_styles_parse() {
    let bar = Style::default_bar();
    assert_eq!(bar.template().len(), 7);
    let spinner = Style::default_spinner();
    assert_eq!(spinner.template().len(), 4);
    assert_eq!(Style::dummy().template().len(), 0);
    let chars = default_progress_bar_chars();
    assert_eq!(chars, vec!["━".to_string(), "╸".to_string(), " ".to_string()]);
}

#[test]
fn default_bar_renders_message_bar_and_counts() {
    let style = Style::default_bar();
    let answers = vec![None; style.template().len()];
    match render_with_answers(&style, &values("job", 20, Some(40), 0), 60, &answers) {
        LineOutcome::Line(s) => {
            assert!(s.starts_with("job ["));
            assert!(s.ends_with("] 20/40"));
            assert_eq!(s.chars().count(), 5 + 40 + 7);
        }
        _ => panic!("no line"),
    }
}

#[test]
fn spinner_chars_must_share_a_width() {
    let mut style = Style::dummy();
    assert!(!style.try_set_spinner_chars(&["a", "bb"]));
    assert!(!style.try_set_spinner_chars(&[]));
    assert!(style.try_set_spinner_chars(&["ab", "cd"]));
    let answers = vec![None; 1];
    style.set_template("{spinner}");
    assert!(matches!(render_with_answers(&style, &values("", 0, None, 1), 80, &answers), LineOutcome::Line(ref s) if s == "cd"));
}

#[test]
fn bar_chars_must_be_one_column_wide() {
    let mut style = Style::dummy();
    assert!(!style.try_set_progress_bar_chars(&["="]));
    assert!(!style.try_set_progress_bar_chars(&["==", "-"]));
    assert!(style.try_set_progress_bar_chars(&["#", "."]));
}

#[test]
fn bouncer_can_be_replaced() {
    let mut style = Style::from_template("{bar:6}").unwrap();
    style.set_bouncer("<>");
    let answers = vec![None; 1];
    assert!(matches!(render_with_answers(&style, &values("", 0, None, 2), 80, &answers), LineOutcome::Line(ref s) if s == "  <>  "));
}

#[test]
fn template_errors_are_reported() {
    let e = Style::from_template("{}").err().unwrap();
    assert_eq!(e.char_index, 1);
    assert!(e.to_string().starts_with("template error at position 1: "));
    let mut style = Style::dummy();
    assert!(matches!(style.try_set_template("{msg"), Some(Err(_))));
    assert_eq!(style.template().len(), 0);
    assert!(matches!(style.try_set_template("{msg:99999}"), None));
    assert!(matches!(Style::try_from_template("{msg:99999}"), None));
}

#[test]
fn bar_template_keys_are_resolved() {
    let items = try_parse_bar_template("{pos} of {length} {x}").unwrap().unwrap();
    assert!(matches!(&items[0], FmtItem::Placeholder { key: PlaceholderKey::Position, .. }));
    assert!(matches!(&items[1], FmtItem::Literal(s) if s == " of "));
    assert!(matches!(&items[2], FmtItem::Placeholder { key: PlaceholderKey::Total, .. }));
    assert!(matches!(&items[4], FmtItem::Placeholder { key: PlaceholderKey::Custom(k), .. } if k == "x"));
    assert_eq!(PlaceholderKey::from_string("elapsed_time".to_string()), PlaceholderKey::ElapsedTime);
    assert_eq!(PlaceholderKey::from_string("nope".to_string()), PlaceholderKey::Custom("nope".to_string()));
}

// ---- the parser ----

#[test]
fn escaped_text_is_one_literal() {
    let parts = parse_template("a {{b}} c", ParseOptions::default()).unwrap();
    assert_eq!(parts.len(), 1);
    assert!(matches!(&parts[0], TemplatePart::Literal(s) if s == "a {b} c"));
}

#[test]
fn overlong_width_aborts_the_parser() {
    assert!(try_parse_template("{a:65535}", ParseOptions::default()).is_some());
    assert!(try_parse_template("{a:65536}", ParseOptions::default()).is_none());
}

#[test]
fn parse_errors_carry_index_and_message() {
    let e = parse_template("ab}", ParseOptions::default()).err().unwrap();
    assert_eq!(e.char_index, 3);
    let e = parse_template("a}b", ParseOptions::default()).err().unwrap();
    assert_eq!(e.char_index, 2);
    assert_eq!(e.message, "unexpected character 'b' after '}'");
    let e = parse_template("{a", ParseOptions::default()).err().unwrap();
    assert_eq!(e.char_index, 2);
    assert!(!e.message.is_empty());
}

#[test]
fn duration_formatter_names_the_unknown_key() {
    let e = DurationFormatter::new("{hours} {fortnights}").err().unwrap();
    assert_eq!(e.char_index, 0);
    assert_eq!(e.message, "unsupported placeholder key 'fortnights'");
    assert!(DurationFormatter::try_new("{hours:70000}").is_none());
}

#[test]
fn duration_formatter_paints_with_colors() {
    let df = DurationFormatter::new("{hours:$green}h").unwrap();
    assert_eq!(df.format_into(Duration::from_secs(7200), false), "2h");
    let painted = df.format_into(Duration::from_secs(7200), true);
    assert!(painted.contains('\u{1b}'));
    assert!(painted.ends_with("h"));
}

// ---- state, targets, hierarchy ----

#[test]
fn decrement_undoes_increment() {
    let mut s = State::new(Some(10));
    s.set_position(5);
    s.increment(7);
    assert_eq!(s.position, 12);
    s.decrement(7);
    assert_eq!(s.position, 5);
    s.decrement(100);
    assert_eq!(s.position, 0);
}

#[test]
fn increment_wraps_like_an_atomic() {
    let mut s = State::new(None);
    s.set_position(u64::MAX);
    s.increment(2);
    assert_eq!(s.position, 1);
    s.tick();
    s.tick();
    assert_eq!(s.ticks, 2);
    s.set_total(Some(3));
    assert_eq!(s.total, Some(3));
}

#[test]
fn increments_climb_linked_parents() {
    assert_eq!(increment_reach(&[]), 0);
    assert_eq!(increment_reach(&[true, true, false, true]), 2);
    assert_eq!(increment_reach(&[false]), 0);
    assert_eq!(increment_reach(&[true]), 1);
}

#[test]
fn lines_are_padded_to_the_width() {
    assert_eq!(padded_line("abc", 6), "abc   ");
    assert_eq!(padded_line("abcdefg", 6), "abcdefg");
    // two braille cells are two columns wide
    assert_eq!(padded_line("⣿⣿", 5), "⣿⣿   ");
}

#[test]
fn cursor_moves_to_reach_a_line() {
    assert_eq!(rows_up(5, 1), Some(3));
    assert_eq!(rows_up(5, 4), Some(0));
    assert_eq!(rows_up(5, 5), None);
    assert_eq!(reset_moves(0), 0);
    assert_eq!(reset_moves(4), 3);
}

#[test]
fn visible_bars_never_outnumber_bars() {
    let mut top = BarNode::leaf(true);
    top.add_child(BarNode::leaf(true));
    top.add_child(BarNode::leaf(false));
    assert_eq!(top.descendant_count(), 3);
    assert_eq!(top.visible_descendant_count(), 1);
}

#[test]
fn empty_bouncer_leaves_the_bar_blank() {
    let mut style = Style::from_template("[{bar:7}]").unwrap();
    style.set_bouncer("");
    let answers = vec![None; style.template().len()];
    for ticks in 0..9u64 {
        assert!(matches!(render_with_answers(&style, &values("", 0, None, ticks), 80, &answers), LineOutcome::Line(ref s) if s == "[       ]"));
    }
}

#[test]
fn literal_templates_render_as_written() {
    for width in [0usize, 3, 80] {
        assert_eq!(line("a {{b}} c", &values("m", 1, Some(2), 3), width), "a {b} c");
    }
}

#[test]
fn unit_keeps_the_number_below_the_base() {
    assert_eq!(susume::format::byte_size::ByteSize(1023 * 1024).to_string(), "1023.00 kiB");
    assert_eq!(susume::format::byte_size::ByteSize(1024 * 1024).to_string(), "1.00 MiB");
    assert_eq!(susume::format::byte_size::ByteSize(999).custom().decimal().to_string(), "999.00 B");
}

#[test]
fn relative_time_reads_the_same_both_ways() {
    let a = Duration::new(1_000, 500_000_000);
    let b = Duration::new(100_000, 0);
    assert_eq!(RelativeTime(a).to_string_at(b), RelativeTime(b).to_string_at(a));
    assert_eq!(RelativeTime(a).to_string_at(b), "1d 3h 29m 59s");
}

#[test]
fn percent_after_dot_without_precision_is_an_error() {
    let opts = ParseOptions { relative_width: true, ..ParseOptions::default() };
    let e = parse_template("{foo:10.%}", opts).err().unwrap();
    assert_eq!(e.char_index, 8);
    assert_eq!(e.message, "'%' needs a precision before it");
    assert!(matches!(Style::try_from_template("{bar:10.%}"), Some(Err(_))));
}

#[test]
fn widths_must_resolve_within_the_columns() {
    let style = Style::from_template("{bar:50%} {msg:.3}").unwrap();
    assert!(template_fits(&style, 120));
    assert!(!template_fits(&style, usize::MAX / 2));
    assert!(template_fits(&Style::from_template("{msg}").unwrap(), usize::MAX));
}
