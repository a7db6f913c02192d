use susume::format::duration::Duration;
use susume::render::render_line;
use susume::render::BarValues;
use susume::render::LineOutcome;
use susume::render::PlaceholderFormatter;
use susume::state::State;
use susume::style::Style;
use susume::target::padded_line;
use susume::template::PlaceholderKey;
use susume::text::FormatSpec;

/// The floating-point keys, as the program around the library supplies them.
struct FloatKeys {
    fraction: f64,
    rate: f64,
}

fn float_text(x: f64, spec: &FormatSpec) -> String {
    match spec.precision {
        Some(p) => format!("{:.*}", p, x),
        None => format!("{}", x),
    }
}

impl PlaceholderFormatter for FloatKeys {
    fn format(&self, key: &PlaceholderKey, extra_args: &Option<String>, spec: &FormatSpec, _avail: usize) -> Option<String> {
        match key {
            PlaceholderKey::Percent => Some(float_text(100.0 * self.fraction, spec)),
            PlaceholderKey::Rate if extra_args.is_none() => Some(float_text(self.rate, spec)),
            _ => None,
        }
    }
}

struct Bar {
    style: Style,
    state: State,
    message: String,
    elapsed: Duration,
}

impl Bar {
    fn new(message: &str, total: Option<u64>) -> Bar {
        Bar {
            style: Style::default_bar(),
            state: State::new(total),
            message: message.to_string(),
            elapsed: Duration::from_secs(0),
        }
    }

    fn with_template(mut self, template: &str) -> Bar {
        self.style.set_template(template);
        self
    }

    fn with_progress_bar_chars(mut self, chars: &[&str]) -> Bar {
        self.style.set_progress_bar_chars(chars);
        self
    }

    fn fraction(&self) -> f64 {
        match self.state.total {
            Some(0) => 1.0,
            Some(len) => self.state.position as f64 / len as f64,
            None => 0.0,
        }
    }

    fn values(&self) -> BarValues {
        // the estimator reads 0 at startup, and a rate of 0 counts as 1
        let remaining = match self.state.total {
            Some(t) => Duration::from_secs(t.saturating_sub(self.state.position)),
            None => Duration::from_secs(0),
        };
        BarValues {
            message: self.message.clone(),
            prefix: String::new(),
            position: self.state.position,
            total: self.state.total,
            ticks: self.state.ticks,
            elapsed: self.elapsed,
            remaining,
            rate: 0,
            colors: false,
        }
    }
}

fn render_bar(bar: &Bar) -> String {
    let keys = FloatKeys { fraction: bar.fraction(), rate: 0.0 };
    let (line, _) = render_line(&bar.style, &bar.values(), 120, &keys);
    match line {
        LineOutcome::Line(s) => padded_line(&s, 120).trim().to_string(),
        _ => panic!("no line"),
    }
}

#[test]
fn test_render_position_bytes() {
    let mut bar = Bar::new("", Some(1_000_000)).with_template("{pos:@bytes}").with_progress_bar_chars(&["=", "-"]);
    bar.state.set_position(1024);
    assert_eq!(render_bar(&bar), "1.00 kiB");
}

#[test]
fn test_render_position_decimal_bytes() {
    let mut bar = Bar::new("", Some(1_000_000)).with_template("{pos:@decimal}").with_progress_bar_chars(&["=", "-"]);
    bar.state.set_position(1000);
    assert_eq!(render_bar(&bar), "1.00 kiB");
}

#[test]
fn test_render_total_bytes() {
    let bar = Bar::new("", Some(1_048_576)).with_template("{total:@bytes}").with_progress_bar_chars(&["=", "-"]);
    assert_eq!(render_bar(&bar), "1.00 MiB");
}

#[test]
fn test_render_position_and_total_bytes() {
    let mut bar =
        Bar::new("", Some(1_048_576)).with_template("{pos:@bytes}/{total:@bytes}").with_progress_bar_chars(&["=", "-"]);
    bar.state.set_position(524_288);
    assert_eq!(render_bar(&bar), "512.00 kiB/1.00 MiB");
}

#[test]
fn test_render_bytes_alt_flag() {
    let mut bar = Bar::new("", Some(1_048_576)).with_template("{pos:#@bytes}").with_progress_bar_chars(&["=", "-"]);
    bar.state.set_position(1024);
    assert_eq!(render_bar(&bar), "1.00kB");
}

#[test]
fn test_render_message() {
    let bar = Bar::new("hello world", Some(100)).with_template("{msg}");
    assert_eq!(render_bar(&bar), "hello world");
}

#[test]
fn test_render_message_update() {
    let mut bar = Bar::new("first", Some(100)).with_template("{msg}");
    assert_eq!(render_bar(&bar), "first");

    bar.message = "second".to_string();
    assert_eq!(render_bar(&bar), "second");
}

#[test]
fn test_render_percent() {
    let mut bar = Bar::new("", Some(200)).with_template("{percent:.0}%");
    bar.state.set_position(100);
    assert_eq!(render_bar(&bar), "50%");
}

#[test]
fn test_render_percent_full() {
    let mut bar = Bar::new("", Some(100)).with_template("{percent:.0}%");
    bar.state.set_position(100);
    assert_eq!(render_bar(&bar), "100%");
}

#[test]
fn test_render_percent_zero() {
    let bar = Bar::new("", Some(100)).with_template("{percent:.0}%");
    assert_eq!(render_bar(&bar), "0%");
}

#[test]
fn test_render_position_total() {
    let mut bar = Bar::new("", Some(500)).with_template("{pos}/{len}");
    bar.state.set_position(123);
    assert_eq!(render_bar(&bar), "123/500");
}

#[test]
fn test_render_position_no_total() {
    let mut bar = Bar::new("", None).with_template("{pos}/{len}");
    bar.state.set_position(42);
    assert_eq!(render_bar(&bar), "42/");
}

#[test]
fn test_render_position_formatted() {
    let mut bar = Bar::new("", Some(1000)).with_template("{pos:05}");
    bar.state.set_position(42);
    assert_eq!(render_bar(&bar), "00042");
}

#[test]
fn test_render_key_aliases() {
    let bar = Bar::new("hello", Some(100)).with_template("{message}");
    assert_eq!(render_bar(&bar), "hello");

    let bar = Bar::new("hello", Some(100)).with_template("{description}");
    assert_eq!(render_bar(&bar), "hello");

    let mut bar = Bar::new("", Some(100)).with_template("{position}");
    bar.state.set_position(42);
    assert_eq!(render_bar(&bar), "42");

    let bar = Bar::new("", Some(100)).with_template("{length}");
    assert_eq!(render_bar(&bar), "100");
}

#[test]
fn test_render_elapsed_default_format() {
    let bar = Bar::new("", Some(100)).with_template("{elapsed}");
    let output = render_bar(&bar);
    assert!(output.contains('s'), "elapsed should contain 's', got: {output}");
}

#[test]
fn test_render_elapsed_custom_format() {
    let bar = Bar::new("", Some(100)).with_template("{elapsed:@{hours:%02}:{minutes:%02}:{seconds:%02}}");
    let output = render_bar(&bar);
    assert_eq!(output.len(), 8, "expected HH:MM:SS format, got: {output}");
    assert_eq!(&output[2..3], ":");
    assert_eq!(&output[5..6], ":");
}

#[test]
fn test_render_remaining_no_total() {
    let bar = Bar::new("", None).with_template("[{remaining}]");
    assert_eq!(render_bar(&bar), "[]");
}

#[test]
fn test_render_remaining_with_total() {
    let bar = Bar::new("", Some(100)).with_template("{remaining}");
    let output = render_bar(&bar);
    assert!(
        output.contains('s') || output.contains('m') || output.contains('h') || output.contains('d'),
        "remaining should contain a time unit, got: {output}"
    );
}

#[test]
fn test_render_rate() {
    let bar = Bar::new("", Some(100)).with_template("{rate:.2}");
    let output = render_bar(&bar);
    assert!(output.contains("0"), "rate should be 0 at startup, got: {output}");
}

#[test]
fn test_render_rate_bytes() {
    let bar = Bar::new("", Some(1_000_000)).with_template("{rate:@bytes}");
    let output = render_bar(&bar);
    assert!(output.contains("B"), "rate @bytes should contain 'B', got: {output}");
}

#[test]
fn test_render_padding() {
    let mut bar = Bar::new("", Some(100)).with_template("{msg}{pad:.<20}{pos}");
    bar.state.set_position(5);
    let output = render_bar(&bar);
    assert!(output.contains("...................."), "padding should contain dots, got: {output}");
    assert!(output.ends_with("5"));
}

#[test]
fn test_increment_decrement() {
    let mut bar = Bar::new("", Some(100)).with_template("{pos}/{len}");

    bar.state.increment(10);
    assert_eq!(render_bar(&bar), "10/100");

    bar.state.increment(5);
    assert_eq!(render_bar(&bar), "15/100");

    bar.state.decrement(3);
    assert_eq!(render_bar(&bar), "12/100");
}

#[test]
fn test_set_position() {
    let mut bar = Bar::new("", Some(100)).with_template("{pos}");

    bar.state.set_position(42);
    assert_eq!(render_bar(&bar), "42");

    bar.state.set_position(99);
    assert_eq!(render_bar(&bar), "99");
}

#[test]
fn test_decrement_below_zero_saturates() {
    let mut bar = Bar::new("", Some(100)).with_template("{pos}");

    bar.state.set_position(5);
    bar.state.decrement(10);
    assert_eq!(render_bar(&bar), "0");
}

#[test]
fn test_multiple_renders_to_string_target() {
    let mut bar = Bar::new("", Some(100)).with_template("{pos}");

    bar.state.set_position(10);
    let _ = render_bar(&bar);

    bar.state.set_position(20);
    let output = render_bar(&bar);
    assert!(output.contains("20"));
}

#[test]
fn test_deferred_bar_fills_remaining() {
    let mut bar = Bar::new("x", Some(100)).with_template("{msg} [{bar:50!}]").with_progress_bar_chars(&["=", "-"]);

    bar.state.set_position(50);
    let output = render_bar(&bar);
    assert!(output.starts_with("x ["));
    assert!(output.ends_with(']'));
    let bar_content: String = output.chars().skip(3).take_while(|c| *c != ']').collect();
    assert_eq!(bar_content.len(), 50);
}
