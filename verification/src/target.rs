//! The decisions of writing lines to a terminal: padding each line to the
//! width, and how far the cursor moves to reach a line already drawn.
use vstd::prelude::*;
use crate::external::measure_text_width;
use crate::external::text_width;
use crate::text::repeat_char;

verus! {

/// A line padded with spaces to `width` columns, so that it covers whatever
/// was drawn there before; a wider line stays as it is.
pub open spec fn padded_line_text(line: Seq<char>, width: nat) -> Seq<char> {
    let w = text_width(line);
    line + repeat_char(' ', if w <= width { (width - w) as nat } else { 0 })
}

/// The line padded with spaces to `width` columns.
pub fn padded_line(line: &str, width: usize) -> (r: String)
    ensures
        r@ == padded_line_text(line@, width as nat),
{
    let w = measure_text_width(line);
    let extra = if w <= width { width - w } else { 0 };
    let mut out = line.to_owned();
    let mut i: usize = 0;
    while i < extra
        invariant
            i <= extra,
            out@ == line@ + repeat_char(' ', i as nat),
        decreases extra - i,
    {
        out.append(" ");
        proof {
            reveal_strlit(" ");
        }
        i = i + 1;
        assert(out@ =~= line@ + repeat_char(' ', i as nat));
    }
    out
}

/// How many rows up from the last line drawn the line `line_idx` is, where
/// `lines` lines were drawn; `None` where that line was not drawn.
pub fn rows_up(lines: usize, line_idx: usize) -> (r: Option<usize>)
    ensures
        line_idx < lines ==> r == Some((lines - line_idx - 1) as usize),
        line_idx >= lines ==> r is None,
{
    if line_idx < lines {
        Some(lines - line_idx - 1)
    } else {
        None
    }
}

/// How many times a reset moves the cursor up to clear the lines drawn: one
/// fewer than the lines, none for none.
pub fn reset_moves(lines: usize) -> (r: usize)
    ensures
        r == (if lines == 0 { 0 } else { lines - 1 }),
{
    if lines == 0 {
        0
    } else {
        lines - 1
    }
}

} // verus!
