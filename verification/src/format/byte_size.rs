//! Human-readable byte counts, such as `34.1 kiB`.
use vstd::prelude::*;
use vstd::arithmetic::div_mod::lemma_fundamental_div_mod_converse;
use vstd::arithmetic::div_mod::lemma_fundamental_div_mod;
use vstd::arithmetic::div_mod::lemma_div_denominator;
use crate::text::Alignment;
use crate::text::FormatSpec;
use crate::text::decimal;
use crate::text::digit_char;
use crate::text::padded;
use crate::text::push_decimal;
use crate::text::push_padded;
use crate::text::string_from_chars;

verus! {

/// A number of bytes, shown in a human-readable way.
#[derive(Debug, Clone, Copy, PartialEq, Eq, Structural)]
pub struct ByteSize(pub u64);

/// The scale of the units: binary (steps of 1024, as in kiB and MiB) or
/// decimal (steps of 1000, as in kB and MB).
#[derive(Debug, Clone, Copy, PartialEq, Eq, Structural)]
pub enum Scale {
    Binary,
    Decimal,
}

/// A [`ByteSize`] with its display options.
#[derive(Debug, Clone, Copy)]
pub struct ByteSizeCustom {
    inner: ByteSize,
    scale: Scale,
    space: bool,
    ibibytes: bool,
    b_suffix: bool,
    uppercase_k: bool,
}

/// The display options of a byte count, as plain values.
pub struct ByteSizeConfig {
    pub bytes: u64,
    pub scale: Scale,
    pub space: bool,
    pub ibibytes: bool,
    pub b_suffix: bool,
    pub uppercase_k: bool,
}

impl View for ByteSizeCustom {
    type V = ByteSizeConfig;

    closed spec fn view(&self) -> ByteSizeConfig {
        ByteSizeConfig {
            bytes: self.inner.0,
            scale: self.scale,
            space: self.space,
            ibibytes: self.ibibytes,
            b_suffix: self.b_suffix,
            uppercase_k: self.uppercase_k,
        }
    }
}

impl ByteSize {
    /// The default options: binary scale, a space, the `i` and the `B`, and
    /// a lower-case `k`.
    pub fn custom(self) -> (r: ByteSizeCustom)
        ensures
            r@ == (ByteSizeConfig {
                bytes: self.0,
                scale: Scale::Binary,
                space: true,
                ibibytes: true,
                b_suffix: true,
                uppercase_k: false,
            }),
    {
        ByteSizeCustom { inner: self, scale: Scale::Binary, space: true, ibibytes: true, b_suffix: true, uppercase_k: false }
    }
}

impl ByteSizeCustom {
    /// Omits the space between the number and the unit, as in `41.3kiB`.
    pub fn no_space(self) -> (r: Self)
        ensures
            r@ == (ByteSizeConfig { space: false, ..self@ }),
    {
        ByteSizeCustom { space: false, ..self }
    }

    /// Writes a space between the number and the unit, as in `41.3 kiB`.
    pub fn space(self) -> (r: Self)
        ensures
            r@ == (ByteSizeConfig { space: true, ..self@ }),
    {
        ByteSizeCustom { space: true, ..self }
    }

    /// Omits the final `B`, as in `41.3 M`.
    pub fn no_b_suffix(self) -> (r: Self)
        ensures
            r@ == (ByteSizeConfig { b_suffix: false, ..self@ }),
    {
        ByteSizeCustom { b_suffix: false, ..self }
    }

    /// Writes the final `B`, as in `41.3 MB`.
    pub fn b_suffix(self) -> (r: Self)
        ensures
            r@ == (ByteSizeConfig { b_suffix: true, ..self@ }),
    {
        ByteSizeCustom { b_suffix: true, ..self }
    }

    /// Writes the `k` of kilo in upper case.
    pub fn uppercase_k(self) -> (r: Self)
        ensures
            r@ == (ByteSizeConfig { uppercase_k: true, ..self@ }),
    {
        ByteSizeCustom { uppercase_k: true, ..self }
    }

    /// Writes the `k` of kilo in lower case.
    pub fn lowercase_k(self) -> (r: Self)
        ensures
            r@ == (ByteSizeConfig { uppercase_k: false, ..self@ }),
    {
        ByteSizeCustom { uppercase_k: false, ..self }
    }

    /// Uses steps of 1000; whether the `i` is written does not change.
    pub fn decimal(self) -> (r: Self)
        ensures
            r@ == (ByteSizeConfig { scale: Scale::Decimal, ..self@ }),
    {
        ByteSizeCustom { scale: Scale::Decimal, ..self }
    }

    /// Uses steps of 1024; whether the `i` is written does not change.
    pub fn binary(self) -> (r: Self)
        ensures
            r@ == (ByteSizeConfig { scale: Scale::Binary, ..self@ }),
    {
        ByteSizeCustom { scale: Scale::Binary, ..self }
    }

    /// Writes the `i` of the unit, as in `41.3 MiB`, whatever the scale.
    pub fn ibibytes(self) -> (r: Self)
        ensures
            r@ == (ByteSizeConfig { ibibytes: true, ..self@ }),
    {
        ByteSizeCustom { ibibytes: true, ..self }
    }

    /// Omits the `i` of the unit, as in `41.3 MB`, whatever the scale.
    pub fn no_ibibytes(self) -> (r: Self)
        ensures
            r@ == (ByteSizeConfig { ibibytes: false, ..self@ }),
    {
        ByteSizeCustom { ibibytes: false, ..self }
    }

    /// Whether to write a space between the number and the unit.
    pub fn with_space(self, space: bool) -> (r: Self)
        ensures
            r@ == (ByteSizeConfig { space: space, ..self@ }),
    {
        ByteSizeCustom { space, ..self }
    }

    /// The scale to use.
    pub fn with_scale(self, scale: Scale) -> (r: Self)
        ensures
            r@ == (ByteSizeConfig { scale: scale, ..self@ }),
    {
        ByteSizeCustom { scale, ..self }
    }

    /// Whether to write the `i` of the unit.
    pub fn with_ibibytes(self, yes: bool) -> (r: Self)
        ensures
            r@ == (ByteSizeConfig { ibibytes: yes, ..self@ }),
    {
        ByteSizeCustom { ibibytes: yes, ..self }
    }

    /// Whether to write the final `B`.
    pub fn with_b_suffix(self, yes: bool) -> (r: Self)
        ensures
            r@ == (ByteSizeConfig { b_suffix: yes, ..self@ }),
    {
        ByteSizeCustom { b_suffix: yes, ..self }
    }

    /// Whether to write the `k` of kilo in upper case.
    pub fn with_uppercase_k(self, yes: bool) -> (r: Self)
        ensures
            r@ == (ByteSizeConfig { uppercase_k: yes, ..self@ }),
    {
        ByteSizeCustom { uppercase_k: yes, ..self }
    }
}


/// The step between units: 1024 or 1000.
pub open spec fn scale_base(s: Scale) -> nat {
    match s {
        Scale::Binary => 1024,
        Scale::Decimal => 1000,
    }
}

/// `b` to the power `k`.
pub open spec fn power(b: nat, k: nat) -> nat
    decreases k,
{
    if k == 0 { 1 } else { b * power(b, (k - 1) as nat) }
}

/// The number of units up from bytes: how many times `n` can be divided by
/// `b` while it is at least `b`.
pub open spec fn prefix_count(n: nat, b: nat) -> nat
    decreases n,
{
    if b <= 1 || n < b {
        0
    } else {
        proof {
            assert(n / b < n) by (nonlinear_arith)
                requires
                    b > 1,
                    n >= b,
            ;
        }
        1 + prefix_count(n / b, b)
    }
}

/// `x / d` rounded to the nearest whole number, ties to the even one.
pub open spec fn round_half_even(x: nat, d: nat) -> nat {
    let q = x / d;
    let r = x % d;
    if 2 * r > d || (2 * r == d && q % 2 == 1) { q + 1 } else { q }
}

/// `v` with its last `p` decimal digits dropped.
pub open spec fn shift_down(v: nat, p: nat) -> nat
    decreases p,
{
    if p == 0 { v } else { shift_down(v / 10, (p - 1) as nat) }
}

/// The last `p` decimal digits of `v`, with leading zeros.
pub open spec fn low_digits(v: nat, p: nat) -> Seq<char>
    decreases p,
{
    if p == 0 { Seq::empty() } else { low_digits(v / 10, (p - 1) as nat).push(digit_char(v % 10)) }
}

/// `v / 10^p` written with `p` digits after the decimal point.
pub open spec fn fixed_point(v: nat, p: nat) -> Seq<char> {
    if p == 0 { decimal(v) } else { decimal(shift_down(v, p)) + seq!['.'] + low_digits(v, p) }
}

/// `n / b^k` (with `k` the prefix count) written with `p` digits after the
/// point, rounded half to even.
pub open spec fn number_text(n: nat, b: nat, p: nat) -> Seq<char> {
    fixed_point(round_half_even(n * power(10, p), power(b, prefix_count(n, b))), p)
}

/// The unit prefix after `k` steps: nothing, `k` (or `K`), `M`, `G`, `T`, `P`.
pub open spec fn prefix_letter(k: nat, upper_k: bool) -> Seq<char> {
    if k == 0 {
        Seq::empty()
    } else if k == 1 {
        if upper_k { seq!['K'] } else { seq!['k'] }
    } else if k == 2 {
        seq!['M']
    } else if k == 3 {
        seq!['G']
    } else if k == 4 {
        seq!['T']
    } else {
        seq!['P']
    }
}

/// Law: the unit chosen for a count is the largest power of the base that
/// does not exceed it, so the number shown before the unit is at least 1
/// and below the base.
pub proof fn law_unit_brackets_count(n: nat, b: nat)
    requires
        b > 1,
    ensures
        n < power(b, prefix_count(n, b) + 1),
        n >= 1 ==> power(b, prefix_count(n, b)) <= n,
    decreases n,
{
    if n >= b {
        let m = n / b;
        assert(m < n && m >= 1 && b * m <= n && n < b * (m + 1)) by (nonlinear_arith)
            requires
                b > 1,
                n >= b,
                m == n / b,
        ;
        law_unit_brackets_count(m, b);
        let k = prefix_count(m, b);
        assert(prefix_count(n, b) == k + 1);
        assert(power(b, k + 2) == b * power(b, k + 1));
        assert(power(b, k + 1) == b * power(b, k));
        assert(n < b * power(b, k + 1)) by (nonlinear_arith)
            requires
                n < b * (m + 1),
                m < power(b, k + 1),
                b > 1,
        ;
        assert(b * power(b, k) <= n) by (nonlinear_arith)
            requires
                b * m <= n,
                power(b, k) <= m,
                b > 1,
        ;
    } else {
        assert(prefix_count(n, b) == 0);
        assert(power(b, 0) == 1);
        assert(power(b, 1) == b * power(b, 0));
        assert(b * 1 == b);
    }
}

proof fn lemma_power_grows(b: nat, i: nat, j: nat)
    requires
        b >= 1,
        i <= j,
    ensures
        power(b, i) <= power(b, j),
    decreases j - i,
{
    if i < j {
        lemma_power_grows(b, i, (j - 1) as nat);
        assert(power(b, j) == b * power(b, (j - 1) as nat));
        assert(power(b, (j - 1) as nat) <= b * power(b, (j - 1) as nat)) by (nonlinear_arith)
            requires
                b >= 1,
        ;
    }
}

/// The unit letters after one to five steps of the base, as a table: kilo
/// (`k`, or `K` on request), mega, giga, tera, peta.
pub open spec fn unit_letters(upper_k: bool) -> Seq<char> {
    if upper_k { seq!['K', 'M', 'G', 'T', 'P'] } else { seq!['k', 'M', 'G', 'T', 'P'] }
}

/// Law: a count `n` with `b^k <= n < b^(k+1)` (for the base `b` of its
/// scale) is written as `n / b^k`, then the `k`-th unit letter of the table
/// (none for `k = 0`): for instance a count from `b^3` up to below `b^4` is
/// written in `G` units.
pub proof fn law_unit_letter(c: ByteSizeConfig, precision: Option<usize>, k: nat)
    requires
        power(scale_base(c.scale), k) <= c.bytes,
        c.bytes < power(scale_base(c.scale), k + 1),
        k <= 5,
    ensures
        prefix_count(c.bytes as nat, scale_base(c.scale)) == k,
        in_range(c),
        k == 0 ==> prefix_letter(k, c.uppercase_k) == Seq::<char>::empty(),
        k > 0 ==> prefix_letter(k, c.uppercase_k) == seq![unit_letters(c.uppercase_k)[k - 1]],
        byte_size_text(c, precision) == number_text(c.bytes as nat, scale_base(c.scale), match precision {
            Some(p) => p as nat,
            None => 2,
        }) + (if c.space { seq![' '] } else { Seq::empty() }) + (if k == 0 {
            Seq::empty()
        } else {
            seq![unit_letters(c.uppercase_k)[k - 1]]
        }) + (if c.ibibytes && k > 0 { seq!['i'] } else { Seq::empty() }) + (if c.b_suffix {
            seq!['B']
        } else {
            Seq::empty()
        }),
{
    let b = scale_base(c.scale);
    let n = c.bytes as nat;
    assert(power(b, 0) == 1);
    law_unit_brackets_count(n, b);
    let pc = prefix_count(n, b);
    assert(n >= 1) by {
        lemma_power_grows(b, 0, k);
    }
    if pc < k {
        lemma_power_grows(b, pc + 1, k);
    }
    if pc > k {
        lemma_power_grows(b, k + 1, pc);
    }
    assert(pc == k);
}

proof fn lemma_shift_scaled(x: nat, p: nat)
    ensures
        shift_down(x * power(10, p), p) == x,
        low_digits(x * power(10, p), p) =~= Seq::new(p, |i: int| '0'),
    decreases p,
{
    if p > 0 {
        let q = (p - 1) as nat;
        lemma_shift_scaled(x, q);
        let y = x * power(10, q);
        assert(x * power(10, p) == 10 * y) by (nonlinear_arith)
            requires
                power(10, p) == 10 * power(10, q),
                y == x * power(10, q),
        ;
        assert((10 * y) / 10 == y && (10 * y) % 10 == 0) by (nonlinear_arith);
        assert(low_digits(10 * y, p) == low_digits(y, q).push(digit_char(0)));
        assert(shift_down(10 * y, p) == shift_down(y, q));
    } else {
        assert(power(10, 0) == 1);
        assert(x * 1 == x);
    }
}

/// Law: a count that is a whole number `m` of its unit (`m` times `b^k`, with
/// `1 <= m < b`) is written as `m` followed by a point and as many zeros as
/// the precision asks (no point for precision 0).
pub proof fn law_whole_units(m: nat, b: nat, k: nat, p: nat)
    requires
        b > 1,
        1 <= m < b,
    ensures
        prefix_count(m * power(b, k), b) == k,
        number_text(m * power(b, k), b, p) == (if p == 0 {
            decimal(m)
        } else {
            decimal(m) + seq!['.'] + Seq::new(p, |i: int| '0')
        }),
{
    let n = m * power(b, k);
    lemma_power_grows(b, 0, k);
    assert(power(b, 0) == 1);
    assert(power(b, k + 1) == b * power(b, k));
    assert(power(b, k) <= n && n < power(b, k + 1)) by (nonlinear_arith)
        requires
            1 <= m < b,
            power(b, k) >= 1,
            n == m * power(b, k),
            power(b, k + 1) == b * power(b, k),
    ;
    law_unit_brackets_count(n, b);
    let pc = prefix_count(n, b);
    if pc < k {
        lemma_power_grows(b, pc + 1, k);
    }
    if pc > k {
        lemma_power_grows(b, k + 1, pc);
    }
    assert(pc == k);
    let t = power(10, p);
    let bk = power(b, k);
    assert(n * t == (m * t) * bk) by (nonlinear_arith)
        requires
            n == m * bk,
    ;
    assert((m * t * bk) / bk == m * t && (m * t * bk) % bk == 0) by (nonlinear_arith)
        requires
            bk >= 1,
    ;
    assert(round_half_even(n * t, bk) == m * t);
    lemma_shift_scaled(m, p);
    if p == 0 {
        assert(m * t == m) by (nonlinear_arith)
            requires
                t == power(10, 0),
                power(10, 0) == 1,
        ;
    }
}

/// Whether a byte count has a unit prefix in the table (up to peta).
pub open spec fn in_range(c: ByteSizeConfig) -> bool {
    prefix_count(c.bytes as nat, scale_base(c.scale)) <= 5
}

/// The text of a byte count: the number with `precision` digits after the
/// point (2 by default), an optional space, the unit prefix, the `i` (only
/// with a prefix) and the `B`.
pub open spec fn byte_size_text(c: ByteSizeConfig, precision: Option<usize>) -> Seq<char> {
    let b = scale_base(c.scale);
    let k = prefix_count(c.bytes as nat, b);
    let p = match precision {
        Some(p) => p as nat,
        None => 2,
    };
    number_text(c.bytes as nat, b, p) + (if c.space { seq![' '] } else { Seq::empty() }) + prefix_letter(k, c.uppercase_k)
        + (if c.ibibytes && k > 0 { seq!['i'] } else { Seq::empty() }) + (if c.b_suffix { seq!['B'] } else { Seq::empty() })
}

/// What displaying a byte count under the options `f` writes: the text, and
/// when an alignment is given, the text padded with spaces to the width
/// (the width alone is ignored, as is the fill).
pub open spec fn byte_size_display(c: ByteSizeConfig, f: FormatSpec) -> Seq<char> {
    let t = byte_size_text(c, f.precision);
    match f.align {
        Some(a) => padded(t, f.width, ' ', a),
        None => t,
    }
}

/// The value of a whole part `q` followed by the digits `s`.
pub open spec fn digits_value(q: nat, s: Seq<u8>) -> nat
    decreases s.len(),
{
    if s.len() == 0 { q } else { 10 * digits_value(q, s.drop_last()) + s.last() as nat }
}

pub open spec fn digits_ok(s: Seq<u8>) -> bool {
    forall|i: int| 0 <= i < s.len() ==> #[trigger] s[i] < 10
}

pub open spec fn digit_chars(s: Seq<u8>) -> Seq<char> {
    s.map_values(|d: u8| digit_char(d as nat))
}

proof fn lemma_div_mod_10(x: nat, d: nat)
    requires
        d < 10,
    ensures
        (10 * x + d) / 10 == x,
        (10 * x + d) % 10 == d,
{
    lemma_fundamental_div_mod_converse((10 * x + d) as int, 10, x as int, d as int);
}

proof fn lemma_fixed_point_digits(q: nat, s: Seq<u8>)
    requires
        digits_ok(s),
    ensures
        shift_down(digits_value(q, s), s.len()) == q,
        low_digits(digits_value(q, s), s.len()) == digit_chars(s),
    decreases s.len(),
{
    if s.len() > 0 {
        let t = s.drop_last();
        assert(digits_ok(t)) by {
            assert forall|i: int| 0 <= i < t.len() implies #[trigger] t[i] < 10 by {
                assert(t[i] == s[i]);
            }
        }
        lemma_fixed_point_digits(q, t);
        assert(s[s.len() - 1] < 10);
        lemma_div_mod_10(digits_value(q, t), s.last() as nat);
        assert(digit_chars(s) =~= digit_chars(t).push(digit_char(s.last() as nat)));
    }
}

proof fn lemma_long_division_step(n: nat, pw: nat, den: nat, v: nat, r: nat, d: nat, r2: nat)
    by (nonlinear_arith)
    requires
        n * pw == den * v + r,
        10 * r == den * d + r2,
    ensures
        n * (10 * pw) == den * (10 * v + d) + r2,
{
}

proof fn lemma_parity(q: nat, s: Seq<u8>)
    requires
        s.len() > 0,
    ensures
        digits_value(q, s) % 2 == (s.last() as nat) % 2,
{
    let v = digits_value(q, s.drop_last());
    assert((10 * v + s.last() as nat) % 2 == (s.last() as nat) % 2) by (nonlinear_arith);
}

/// Adds one to the number `q` followed by the first `len` digits of `s`.
fn increment_digits(q: u64, s: &mut Vec<u8>, len: usize) -> (q2: u64)
    requires
        len <= old(s).len(),
        digits_ok(old(s)@),
        q < u64::MAX,
    ensures
        final(s).len() == old(s).len(),
        digits_ok(final(s)@),
        final(s)@.skip(len as int) == old(s)@.skip(len as int),
        digits_value(q2 as nat, final(s)@.take(len as int)) == digits_value(q as nat, old(s)@.take(len as int)) + 1,
        q2 <= q + 1,
    decreases len,
{
    if len == 0 {
        assert(s@.take(0) =~= Seq::<u8>::empty());
        return q + 1;
    }
    let d = s[len - 1];
    let ghost old_s = s@;
    assert(old_s.take(len as int).drop_last() =~= old_s.take(len - 1));
    if d < 9 {
        s.set(len - 1, d + 1);
        assert(s@.take(len as int).drop_last() =~= old_s.take(len - 1));
        assert(s@.skip(len as int) =~= old_s.skip(len as int));
        q
    } else {
        s.set(len - 1, 0);
        let ghost mid = s@;
        assert(mid.take(len - 1) =~= old_s.take(len - 1));
        let q2 = increment_digits(q, s, len - 1);
        assert(s@[len - 1] == mid.skip(len - 1)[0]);
        assert(s@.take(len as int).drop_last() =~= s@.take(len - 1));
        assert(s@.skip(len as int) =~= mid.skip(len - 1).skip(1));
        assert(old_s.skip(len as int) =~= mid.skip(len as int));
        assert(mid.skip(len - 1).skip(1) =~= mid.skip(len as int));
        q2
    }
}

fn base_of(s: Scale) -> (b: u64)
    ensures
        b as nat == scale_base(s),
{
    match s {
        Scale::Binary => 1024,
        Scale::Decimal => 1000,
    }
}

proof fn lemma_mul_mono(a: nat, b: nat, m: nat)
    by (nonlinear_arith)
    requires
        b <= m,
    ensures
        a * b <= a * m,
{
}

/// Appends the number part of a byte count: `n / b^k` with `p` digits after
/// the point, rounded half to even. Returns the prefix count `k`.
fn push_number(out: &mut Vec<char>, n: u64, b: u64, p: usize) -> (k: u64)
    requires
        b == 1000 || b == 1024,
    ensures
        k as nat == prefix_count(n as nat, b as nat),
        final(out)@ == old(out)@ + number_text(n as nat, b as nat, p as nat),
{
    let mut m: u64 = n;
    let mut den: u64 = 1;
    let mut k: u64 = 0;
    while m >= b
        invariant
            b == 1000 || b == 1024,
            den >= 1,
            k <= den,
            m as nat == n as nat / den as nat,
            den as nat == power(b as nat, k as nat),
            prefix_count(n as nat, b as nat) == k + prefix_count(m as nat, b as nat),
        decreases m,
    {
        proof {
            lemma_fundamental_div_mod(n as int, den as int);
            lemma_mul_mono(den as nat, b as nat, m as nat);
            lemma_div_denominator(n as int, den as int, b as int);
            assert(den * b <= n);
            assert(den * b >= den + 1) by (nonlinear_arith)
                requires
                    den >= 1,
                    b >= 1000,
            ;
        }
        den = den * b;
        m = m / b;
        k = k + 1;
    }
    let q: u64 = m;
    proof {
        lemma_fundamental_div_mod(n as int, den as int);
    }
    let r0: u64 = n - den * q;
    assert(r0 == n % den);
    assert(power(10, 0) == 1);
    assert((n as nat) * 1 == n as nat);
    assert(digits_value(q as nat, Seq::<u8>::empty()) == q);
    let mut r: u128 = r0 as u128;
    let mut digits: Vec<u8> = Vec::new();
    let mut j: usize = 0;
    while j < p
        invariant
            j <= p,
            den >= 1,
            digits.len() == j,
            digits_ok(digits@),
            r < den,
            (n as nat) * power(10, j as nat) == den * digits_value(q as nat, digits@) + r,
        decreases p - j,
    {
        let t: u128 = 10 * r;
        let d: u128 = t / (den as u128);
        let r2: u128 = t % (den as u128);
        proof {
            lemma_fundamental_div_mod(t as int, den as int);
            assert(d < 10) by (nonlinear_arith)
                requires
                    t == 10 * r,
                    r < den,
                    den >= 1,
                    t == den * d + r2,
                    r2 >= 0,
            ;
            lemma_long_division_step(n as nat, power(10, j as nat), den as nat, digits_value(q as nat, digits@), r as nat, d as nat, r2 as nat);
        }
        let ghost old_digits = digits@;
        digits.push(d as u8);
        proof {
            assert(digits@.drop_last() =~= old_digits);
            assert forall|i: int| 0 <= i < digits@.len() implies #[trigger] digits@[i] < 10 by {
                if i < j {
                    assert(digits@[i] == old_digits[i]);
                }
            }
        }
        r = r2;
        j = j + 1;
    }
    let ghost big = (n as nat) * power(10, p as nat);
    let ghost v = digits_value(q as nat, digits@);
    proof {
        lemma_fundamental_div_mod_converse(big as int, den as int, v as int, r as int);
    }
    let odd = if p == 0 {
        q % 2 == 1
    } else {
        proof {
            lemma_parity(q as nat, digits@);
        }
        digits[p - 1] % 2 == 1
    };
    let round_up = 2 * r > den as u128 || (2 * r == den as u128 && odd);
    let mut whole = q;
    if round_up {
        assert(digits@.take(p as int) =~= digits@);
        whole = increment_digits(q, &mut digits, p);
        assert(digits@.take(p as int) =~= digits@);
    }
    assert(digits_value(whole as nat, digits@) == round_half_even(big, power(b as nat, prefix_count(n as nat, b as nat))));
    proof {
        lemma_fixed_point_digits(whole as nat, digits@);
    }
    push_decimal(out, whole);
    if p > 0 {
        out.push('.');
        let mut i: usize = 0;
        let ghost start = out@;
        while i < digits.len()
            invariant
                i <= digits.len(),
                digits_ok(digits@),
                out@ == start + digit_chars(digits@).take(i as int),
            decreases digits.len() - i,
        {
            let d = digits[i];
            let c = if d == 0 { '0' } else if d == 1 { '1' } else if d == 2 { '2' } else if d == 3 { '3' }
                else if d == 4 { '4' } else if d == 5 { '5' } else if d == 6 { '6' } else if d == 7 { '7' }
                else if d == 8 { '8' } else { '9' };
            assert(digits@[i as int] < 10);
            out.push(c);
            i = i + 1;
            assert(out@ =~= start + digit_chars(digits@).take(i as int));
        }
        assert(digit_chars(digits@).take(i as int) =~= digit_chars(digits@));
    }
    assert(final(out)@ =~= old(out)@ + number_text(n as nat, b as nat, p as nat));
    k
}


fn prefix_chars(out: &mut Vec<char>, k: u64, upper_k: bool)
    requires
        k <= 5,
    ensures
        final(out)@ == old(out)@ + prefix_letter(k as nat, upper_k),
{
    if k == 1 {
        if upper_k {
            out.push('K');
        } else {
            out.push('k');
        }
    } else if k == 2 {
        out.push('M');
    } else if k == 3 {
        out.push('G');
    } else if k == 4 {
        out.push('T');
    } else if k == 5 {
        out.push('P');
    }
    assert(final(out)@ =~= old(out)@ + prefix_letter(k as nat, upper_k));
}

impl ByteSizeCustom {
    /// Whether the count has a unit prefix in the table (below `1000^6`
    /// bytes on the decimal scale, `1024^6` on the binary one).
    pub fn has_prefix(&self) -> (r: bool)
        ensures
            r == in_range(self@),
    {
        let mut scratch: Vec<char> = Vec::new();
        let count = push_number(&mut scratch, self.inner.0, base_of(self.scale), 0);
        count <= 5
    }

    /// The byte count as text under the options `f` (precision, width and
    /// alignment).
    pub fn format_with(&self, f: &FormatSpec) -> (s: String)
        requires
            in_range(self@),
        ensures
            s@ == byte_size_display(self@, *f),
    {
        let p: usize = match f.precision {
            Some(p) => p,
            None => 2,
        };
        let mut t: Vec<char> = Vec::new();
        let k = push_number(&mut t, self.inner.0, base_of(self.scale), p);
        if self.space {
            t.push(' ');
        }
        prefix_chars(&mut t, k, self.uppercase_k);
        if self.ibibytes && k > 0 {
            t.push('i');
        }
        if self.b_suffix {
            t.push('B');
        }
        assert(t@ =~= byte_size_text(self@, f.precision));
        match f.align {
            Some(a) => {
                let mut out: Vec<char> = Vec::new();
                push_padded(&mut out, t.as_slice(), f.width, ' ', a);
                assert(out@ =~= byte_size_display(self@, *f));
                string_from_chars(out.as_slice())
            },
            None => string_from_chars(t.as_slice()),
        }
    }

    /// The byte count as text with no options: two digits after the point.
    pub fn to_string(&self) -> (s: String)
        requires
            in_range(self@),
        ensures
            s@ == byte_size_text(self@, None),
    {
        self.format_with(&FormatSpec::plain())
    }
}

impl ByteSize {
    /// The byte count with the default options, as text.
    pub fn to_string(&self) -> (s: String)
        requires
            in_range(self.custom_spec()),
        ensures
            s@ == byte_size_text(self.custom_spec(), None),
    {
        self.custom().to_string()
    }

    /// The default options for this count.
    pub open spec fn custom_spec(&self) -> ByteSizeConfig {
        ByteSizeConfig { bytes: self.0, scale: Scale::Binary, space: true, ibibytes: true, b_suffix: true, uppercase_k: false }
    }
}

} // verus!
