//! Character-sequence helpers and the std formatting rules for padding
//! strings and unsigned integers.
use vstd::prelude::*;

verus! {

/// Text alignment inside a padded field.
#[derive(Debug, Clone, Copy, PartialEq, Eq, Structural)]
pub enum Alignment {
    Left,
    Center,
    Right,
}

/// Appends one character to a string (`String::push`).
#[verifier::external_body]
pub(crate) fn push_char(s: &mut String, c: char)
    ensures
        final(s)@ == old(s)@.push(c),
{
    s.push(c);
}

/// The characters of a string, in order.
pub fn chars_of(s: &str) -> (v: Vec<char>)
    ensures
        v@ == s@,
{
    let n = s.unicode_len();
    let mut v: Vec<char> = Vec::new();
    let mut i: usize = 0;
    while i < n
        invariant
            n == s@.len(),
            i <= n,
            v@ == s@.subrange(0, i as int),
        decreases n - i,
    {
        let c = s.get_char(i);
        v.push(c);
        i = i + 1;
        assert(v@ =~= s@.subrange(0, i as int));
    }
    assert(v@ =~= s@);
    v
}

/// Builds a string from a sequence of characters.
pub fn string_from_chars(v: &[char]) -> (s: String)
    ensures
        s@ == v@,
{
    let mut s = String::new();
    let mut i: usize = 0;
    while i < v.len()
        invariant
            i <= v.len(),
            s@ == v@.subrange(0, i as int),
        decreases v.len() - i,
    {
        push_char(&mut s, v[i]);
        i = i + 1;
        assert(s@ =~= v@.subrange(0, i as int));
    }
    assert(v@.subrange(0, v.len() as int) =~= v@);
    s
}

/// Whether two strings hold the same characters.
pub fn str_equals(a: &str, b: &str) -> (r: bool)
    ensures
        r == (a@ == b@),
{
    let n = a.unicode_len();
    let m = b.unicode_len();
    if n != m {
        return false;
    }
    let mut i: usize = 0;
    while i < n
        invariant
            n == a@.len(),
            m == b@.len(),
            n == m,
            i <= n,
            forall|j: int| 0 <= j < i ==> a@[j] == b@[j],
        decreases n - i,
    {
        if a.get_char(i) != b.get_char(i) {
            return false;
        }
        i = i + 1;
    }
    assert(a@ =~= b@);
    true
}

/// Appends the characters of `b` to `out`.
pub fn append_chars(out: &mut Vec<char>, b: &[char])
    ensures
        final(out)@ == old(out)@ + b@,
{
    let mut i: usize = 0;
    while i < b.len()
        invariant
            i <= b.len(),
            out@ == old(out)@ + b@.subrange(0, i as int),
        decreases b.len() - i,
    {
        out.push(b[i]);
        i = i + 1;
        assert(out@ =~= old(out)@ + b@.subrange(0, i as int));
    }
    assert(b@.subrange(0, b.len() as int) =~= b@);
}

/// The character of a decimal digit.
pub open spec fn digit_char(d: nat) -> char {
    if d == 0 { '0' } else if d == 1 { '1' } else if d == 2 { '2' } else if d == 3 { '3' }
    else if d == 4 { '4' } else if d == 5 { '5' } else if d == 6 { '6' } else if d == 7 { '7' }
    else if d == 8 { '8' } else { '9' }
}

/// The decimal representation of a natural number, without leading zeros.
pub open spec fn decimal(n: nat) -> Seq<char>
    decreases n,
{
    if n < 10 {
        seq![digit_char(n)]
    } else {
        decimal(n / 10).push(digit_char(n % 10))
    }
}

fn digit_to_char(d: u64) -> (c: char)
    requires
        d < 10,
    ensures
        c == digit_char(d as nat),
{
    if d == 0 { '0' } else if d == 1 { '1' } else if d == 2 { '2' } else if d == 3 { '3' }
    else if d == 4 { '4' } else if d == 5 { '5' } else if d == 6 { '6' } else if d == 7 { '7' }
    else if d == 8 { '8' } else { '9' }
}

/// Appends the decimal digits of `n` to `out`.
pub fn push_decimal(out: &mut Vec<char>, n: u64)
    ensures
        final(out)@ == old(out)@ + decimal(n as nat),
    decreases n,
{
    if n >= 10 {
        push_decimal(out, n / 10);
    }
    out.push(digit_to_char(n % 10));
    assert(final(out)@ =~= old(out)@ + decimal(n as nat)) by {
        if n >= 10 {
            assert(decimal(n as nat) == decimal((n / 10) as nat).push(digit_char((n % 10) as nat)));
        }
    }
}

/// `n` copies of `c`.
pub open spec fn repeat_char(c: char, n: nat) -> Seq<char> {
    Seq::new(n, |_i: int| c)
}

/// Appends `n` copies of `c` to `out`.
pub fn push_repeat(out: &mut Vec<char>, c: char, n: usize)
    ensures
        final(out)@ == old(out)@ + repeat_char(c, n as nat),
{
    let mut i: usize = 0;
    while i < n
        invariant
            i <= n,
            out@ == old(out)@ + repeat_char(c, i as nat),
        decreases n - i,
    {
        out.push(c);
        i = i + 1;
        assert(out@ =~= old(out)@ + repeat_char(c, i as nat));
    }
}


/// The formatting options that std's `Display` for strings and unsigned
/// integers reads: fill, alignment, width, precision, `+`, `#` and `0`.
#[derive(Debug, Clone, Copy, PartialEq, Eq, Structural)]
pub struct FormatSpec {
    pub fill: char,
    pub align: Option<Alignment>,
    pub width: Option<usize>,
    pub precision: Option<usize>,
    pub sign_plus: bool,
    pub alternate: bool,
    pub zero_pad: bool,
}

impl FormatSpec {
    /// No options at all: values are written as they are.
    pub fn plain() -> (f: FormatSpec)
        ensures
            f == FormatSpec::none(),
    {
        FormatSpec {
            fill: ' ',
            align: None,
            width: None,
            precision: None,
            sign_plus: false,
            alternate: false,
            zero_pad: false,
        }
    }

    pub open spec fn none() -> FormatSpec {
        FormatSpec {
            fill: ' ',
            align: None,
            width: None,
            precision: None,
            sign_plus: false,
            alternate: false,
            zero_pad: false,
        }
    }
}

/// The number of fill characters written before and after a field of
/// `len` characters padded to `width` with the given alignment.
pub open spec fn padding_split(len: nat, width: nat, align: Alignment) -> (nat, nat) {
    if width <= len {
        (0, 0)
    } else {
        let pad = (width - len) as nat;
        match align {
            Alignment::Left => (0, pad),
            Alignment::Right => (pad, 0),
            Alignment::Center => (pad / 2, ((pad + 1) / 2) as nat),
        }
    }
}

/// `s` padded with `fill` to at least `width` characters.
pub open spec fn padded(s: Seq<char>, width: Option<usize>, fill: char, align: Alignment) -> Seq<char> {
    match width {
        Some(w) => {
            let (pre, post) = padding_split(s.len(), w as nat, align);
            repeat_char(fill, pre) + s + repeat_char(fill, post)
        },
        None => s,
    }
}

/// What std's `Display` for `str` writes under the options `f`: the text cut
/// to `precision` characters, then padded (left-aligned by default).
pub open spec fn display_str(f: FormatSpec, s: Seq<char>) -> Seq<char> {
    let t = match f.precision {
        Some(p) => if p < s.len() { s.take(p as int) } else { s },
        None => s,
    };
    padded(t, f.width, f.fill, match f.align { Some(a) => a, None => Alignment::Left })
}

/// The sign that std writes before a non-negative integer.
pub open spec fn sign_prefix(f: FormatSpec) -> Seq<char> {
    if f.sign_plus { seq!['+'] } else { Seq::empty() }
}

/// What std's `Display` for an unsigned integer writes under the options `f`:
/// the optional `+`, the digits, and padding (right-aligned by default); with
/// `0` the padding is zeros between the sign and the digits.
pub open spec fn display_uint(f: FormatSpec, n: nat) -> Seq<char> {
    let body = sign_prefix(f) + decimal(n);
    if f.zero_pad {
        match f.width {
            Some(w) => if body.len() < w {
                sign_prefix(f) + repeat_char('0', (w - body.len()) as nat) + decimal(n)
            } else {
                body
            },
            None => body,
        }
    } else {
        padded(body, f.width, f.fill, match f.align { Some(a) => a, None => Alignment::Right })
    }
}

fn split_padding(len: usize, width: usize, align: Alignment) -> (r: (usize, usize))
    ensures
        r.0 as nat == padding_split(len as nat, width as nat, align).0,
        r.1 as nat == padding_split(len as nat, width as nat, align).1,
{
    if width <= len {
        (0, 0)
    } else {
        let pad = width - len;
        match align {
            Alignment::Left => (0, pad),
            Alignment::Right => (pad, 0),
            Alignment::Center => (pad / 2, pad - pad / 2),
        }
    }
}

/// Appends `s` padded to `width` with `fill`.
pub fn push_padded(out: &mut Vec<char>, s: &[char], width: Option<usize>, fill: char, align: Alignment)
    ensures
        final(out)@ == old(out)@ + padded(s@, width, fill, align),
{
    match width {
        Some(w) => {
            let (pre, post) = split_padding(s.len(), w, align);
            push_repeat(out, fill, pre);
            append_chars(out, s);
            push_repeat(out, fill, post);
            assert(final(out)@ =~= old(out)@ + padded(s@, width, fill, align));
        },
        None => {
            append_chars(out, s);
        },
    }
}

/// Appends `s` as std's `Display` for `str` writes it under `f`.
pub fn push_display_str(out: &mut Vec<char>, f: &FormatSpec, s: &[char])
    ensures
        final(out)@ == old(out)@ + display_str(*f, s@),
{
    let align = match f.align { Some(a) => a, None => Alignment::Left };
    match f.precision {
        Some(p) => {
            if p < s.len() {
                let mut t: Vec<char> = Vec::new();
                let mut i: usize = 0;
                while i < p
                    invariant
                        i <= p,
                        p < s.len(),
                        t@ == s@.take(i as int),
                    decreases p - i,
                {
                    t.push(s[i]);
                    i = i + 1;
                    assert(t@ =~= s@.take(i as int));
                }
                push_padded(out, t.as_slice(), f.width, f.fill, align);
            } else {
                push_padded(out, s, f.width, f.fill, align);
            }
        },
        None => {
            push_padded(out, s, f.width, f.fill, align);
        },
    }
}

/// Appends `n` as std's `Display` for unsigned integers writes it under `f`.
pub fn push_display_uint(out: &mut Vec<char>, f: &FormatSpec, n: u64)
    ensures
        final(out)@ == old(out)@ + display_uint(*f, n as nat),
{
    let mut body: Vec<char> = Vec::new();
    if f.sign_plus {
        body.push('+');
    }
    let ghost sign = body@;
    assert(sign == sign_prefix(*f));
    push_decimal(&mut body, n);
    if f.zero_pad {
        match f.width {
            Some(w) => {
                if body.len() < w {
                    if f.sign_plus {
                        out.push('+');
                    }
                    push_repeat(out, '0', w - body.len());
                    push_decimal(out, n);
                    assert(final(out)@ =~= old(out)@ + display_uint(*f, n as nat));
                } else {
                    append_chars(out, body.as_slice());
                }
            },
            None => {
                append_chars(out, body.as_slice());
            },
        }
    } else {
        let align = match f.align { Some(a) => a, None => Alignment::Right };
        push_padded(out, body.as_slice(), f.width, f.fill, align);
    }
}

/// Whether `c` occurs in `v`.
pub fn chars_contain(v: &Vec<char>, c: char) -> (r: bool)
    ensures
        r == v@.contains(c),
{
    let mut i: usize = 0;
    while i < v.len()
        invariant
            i <= v.len(),
            forall|j: int| 0 <= j < i ==> v@[j] != c,
        decreases v.len() - i,
    {
        if v[i] == c {
            assert(v@[i as int] == c);
            return true;
        }
        i = i + 1;
    }
    false
}

} // verus!
