//! The calls into the `console` and `itertools` crates, with what the
//! library relies on of each.
use vstd::prelude::*;

verus! {

/// A text painted in a style: `console::Style::from_dotted_str(style)` applied
/// to `text`, with escape codes written only when `enabled`. The codes that a
/// style string gives are named, not spelled out.
pub uninterp spec fn ansi_styled(style: Seq<char>, text: Seq<char>, enabled: bool) -> Seq<char>;

/// `console::Style::from_dotted_str(style).force_styling(enabled).apply_to(text)`,
/// written out. With styling forced on or off the result depends on the
/// arguments alone; it is named [`ansi_styled`]. Stated besides: with styling
/// off, or with an empty style string (which names no colour or attribute),
/// the text comes back unchanged.
#[verifier::external_body]
pub fn styled_text(style: &str, text: &str, enabled: bool) -> (r: String)
    ensures
        r@ == ansi_styled(style@, text@, enabled),
        !enabled || style@.len() == 0 ==> r@ == text@,
{
    console::Style::from_dotted_str(style).force_styling(enabled).apply_to(text).to_string()
}

/// The display width of a text in terminal columns, as
/// `console::measure_text_width` computes it: escape codes count for nothing
/// and each other character for its Unicode width.
pub uninterp spec fn text_width(s: Seq<char>) -> nat;

/// Whether every character is printable ASCII (space to `~`).
pub open spec fn printable_ascii(s: Seq<char>) -> bool {
    forall|i: int| 0 <= i < s.len() ==> ' ' <= #[trigger] s[i] && s[i] <= '~'
}

/// `console::measure_text_width`. Its result is named [`text_width`]; for
/// printable ASCII text it is the number of characters (the source returns
/// the byte length there).
#[verifier::external_body]
pub fn measure_text_width(s: &str) -> (w: usize)
    ensures
        w as nat == text_width(s@),
        printable_ascii(s@) ==> w == s@.len(),
{
    console::measure_text_width(s)
}

} // verus!
