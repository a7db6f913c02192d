use susume::render::render_with_answers;
use susume::render::BarValues;
use susume::render::LineOutcome;
use susume::format::duration::Duration;
use susume::style::Style;
use susume::target::padded_line;

fn values(pos: u64, total: Option<u64>) -> BarValues {
    BarValues {
        message: String::new(),
        prefix: String::new(),
        position: pos,
        total,
        ticks: 0,
        elapsed: Duration::from_secs(0),
        remaining: Duration::from_secs(0),
        rate: 0,
        colors: false,
    }
}

fn line_of(style: &Style, v: &BarValues) -> String {
    let answers = vec![None; style.template().len()];
    match render_with_answers(style, v, 120, &answers) {
        LineOutcome::Line(s) => padded_line(&s, 120).trim().to_string(),
        _ => panic!("no line"),
    }
}

#[test]
fn test_render_simple() {
    fn bar(pos: u64) -> String {
        let mut style = Style::from_template("[{bar:50}] {pos}/{len}").unwrap();
        style.set_progress_bar_chars(&["=", "-"]);
        line_of(&style, &values(pos, Some(100)))
    }

    for fill in 0..=100usize {
        let expected = format!("[{l}{r}] {fill}/100", l = "=".repeat(fill / 2), r = "-".repeat(50 - (fill / 2)));
        assert_eq!(bar(fill as u64), expected);
    }
}

#[test]
fn test_render_frac() {
    fn bar(pos: u64) -> String {
        let mut style = Style::from_template("[{bar:2}] {pos:02}/{len}").unwrap();
        style.set_progress_bar_chars(&["=", "9", "8", "7", "6", "5", "4", "3", "2", "1", "-"]);
        line_of(&style, &values(pos, Some(20)))
    }

    assert_eq!(bar(00), "[--] 00/20");
    assert_eq!(bar(01), "[1-] 01/20");
    assert_eq!(bar(02), "[2-] 02/20");
    assert_eq!(bar(03), "[3-] 03/20");
    assert_eq!(bar(04), "[4-] 04/20");
    assert_eq!(bar(05), "[5-] 05/20");
    assert_eq!(bar(06), "[6-] 06/20");
    assert_eq!(bar(07), "[7-] 07/20");
    assert_eq!(bar(08), "[8-] 08/20");
    assert_eq!(bar(09), "[9-] 09/20");
    assert_eq!(bar(10), "[=-] 10/20");
    assert_eq!(bar(11), "[=1] 11/20");
    assert_eq!(bar(12), "[=2] 12/20");
    assert_eq!(bar(13), "[=3] 13/20");
    assert_eq!(bar(14), "[=4] 14/20");
    assert_eq!(bar(15), "[=5] 15/20");
    assert_eq!(bar(16), "[=6] 16/20");
    assert_eq!(bar(17), "[=7] 17/20");
    assert_eq!(bar(18), "[=8] 18/20");
    assert_eq!(bar(19), "[=9] 19/20");
    assert_eq!(bar(20), "[==] 20/20");
}
