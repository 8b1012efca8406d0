//! Decimal numeric literals.
//!
//! TCML numeric values use the syntax of Rust's floating-point literals
//! (`12`, `-3.5`, `.5`, `4.`, `1e3`, `inf`, `NaN`, ...). This module reads
//! such a literal exactly and rounds it to millionths.

use vstd::prelude::*;
use crate::chars::{is_ascii_digit, span_eq_ignore_case, spec_eq_ignore_case, spec_is_ascii_digit};

verus! {

/// Largest magnitude (in units) that a wide reading holds.
pub const MAX_WIDE_UNITS: i64 = 1_000_000_000_000;

/// Largest magnitude (in units) of an ordinary reading.
pub const MAX_MAGNITUDE_UNITS: i64 = 1_000_000_000;

/// Exponents are saturated at this magnitude while reading.
pub const EXPONENT_LIMIT: i64 = 1_000_000_000_000;

/// Outcome of reading a well-formed numeric literal.
#[derive(Debug, Clone, Copy, PartialEq, Eq, Structural)]
pub enum Number {
    /// `inf`, `infinity`, `nan`, or a literal whose magnitude reaches 10^309.
    NotFinite,
    /// A finite literal whose magnitude exceeds the reading's limit.
    TooLarge { negative: bool },
    /// A literal of magnitude within the reading's limit, in millionths,
    /// rounded to the nearest millionth (halves rounded away from zero).
    Value { micros: i64 },
}

pub open spec fn spec_digit(c: char) -> int {
    (c as u32 as int) - ('0' as u32 as int)
}

/// End of the run of ASCII digits that starts at `i`.
pub open spec fn spec_digit_run_end(s: Seq<char>, i: int, end: int) -> int
    decreases end - i,
{
    if i >= end {
        end
    } else if spec_is_ascii_digit(s[i]) {
        spec_digit_run_end(s, i + 1, end)
    } else {
        i
    }
}

/// Value of the exponent digits `s[i..j]`, saturated at `EXPONENT_LIMIT`.
pub open spec fn spec_exponent_value(s: Seq<char>, i: int, j: int) -> int
    decreases j - i,
{
    if j <= i {
        0
    } else {
        let prefix = spec_exponent_value(s, i, j - 1);
        let v = prefix * 10 + spec_digit(s[j - 1]);
        if v > EXPONENT_LIMIT {
            EXPONENT_LIMIT as int
        } else {
            v
        }
    }
}

/// The layout of a finite decimal literal in `s[start..end]`: sign,
/// integer digits `s[int_start..int_end]`, fraction digits
/// `s[frac_start..frac_end]`, and the (saturated) signed exponent.
pub struct DecimalShape {
    pub negative: bool,
    pub int_start: int,
    pub int_end: int,
    pub frac_start: int,
    pub frac_end: int,
    pub exponent: int,
}

/// Index just after an optional `+`/`-` sign at `start`.
pub open spec fn spec_after_sign(s: Seq<char>, start: int, end: int) -> int {
    if start < end && (s[start] == '+' || s[start] == '-') {
        start + 1
    } else {
        start
    }
}

/// Whether `s[start..end]` is a finite decimal literal, and its shape.
pub open spec fn spec_decimal_shape(s: Seq<char>, start: int, end: int) -> Option<DecimalShape> {
    let negative = start < end && s[start] == '-';
    let i = spec_after_sign(s, start, end);
    let j = spec_digit_run_end(s, i, end);
    let has_point = j < end && s[j] == '.';
    let fs = if has_point { j + 1 } else { j };
    let fe = if has_point { spec_digit_run_end(s, fs, end) } else { j };
    if (j - i) + (fe - fs) == 0 {
        None
    } else if fe == end {
        Some(DecimalShape { negative, int_start: i, int_end: j, frac_start: fs, frac_end: fe, exponent: 0 })
    } else if s[fe] == 'e' || s[fe] == 'E' {
        let es = spec_after_sign(s, fe + 1, end);
        let ee = spec_digit_run_end(s, es, end);
        if ee == end && ee > es {
            let mag = spec_exponent_value(s, es, ee);
            let exponent = if s[fe + 1] == '-' { -mag } else { mag };
            Some(DecimalShape { negative, int_start: i, int_end: j, frac_start: fs, frac_end: fe, exponent })
        } else {
            None
        }
    } else {
        None
    }
}

proof fn lemma_digit_run_end_cut(s: Seq<char>, i: int, m: int, end: int)
    requires
        i <= m <= end,
    ensures
        spec_digit_run_end(s, i, m) == if spec_digit_run_end(s, i, end) <= m { spec_digit_run_end(s, i, end) } else { m },
    decreases m - i,
{
    lemma_digit_run_end_bounds(s, i, end);
    if i < m {
        lemma_digit_run_end_cut(s, i + 1, m, end);
    }
}

proof fn lemma_digit_run_end_bounds(s: Seq<char>, i: int, end: int)
    requires
        i <= end,
    ensures
        i <= spec_digit_run_end(s, i, end) <= end,
    decreases end - i,
{
    if i < end {
        lemma_digit_run_end_bounds(s, i + 1, end);
    }
}

/// An exponent moves the digits: when the literal `s[start..end]` ends in
/// an exponent `e-k` (or `E-k`), its mantissa `s[start..m]` is a literal
/// of its own and every digit of the whole literal sits `k` places below
/// where it sits in the mantissa, so `5e-1` reads as `0.5`; with `e+k` or
/// `ek` every digit sits `k` places above, so `5e1` reads as `50`.
pub proof fn lemma_exponent_moves_digits(s: Seq<char>, start: int, end: int)
    requires
        0 <= start <= end <= s.len(),
        spec_decimal_shape(s, start, end) matches Some(shape) && shape.frac_end < end,
    ensures
        ({
            let shape = spec_decimal_shape(s, start, end)->Some_0;
            let m = shape.frac_end;
            let k = spec_exponent_value(s, spec_after_sign(s, m + 1, end), end);
            let shift = if s[m + 1] == '-' { -k } else { k };
            &&& spec_decimal_shape(s, start, m) matches Some(mantissa) && {
                &&& spec_lead(shape) == spec_lead(mantissa) + shift
                &&& forall|p: int| #[trigger] spec_digit_at(s, shape, spec_lead(shape), p)
                    == spec_digit_at(s, mantissa, spec_lead(mantissa), p - shift)
            }
        }),
{
    let shape = spec_decimal_shape(s, start, end)->Some_0;
    let m = shape.frac_end;
    let i = spec_after_sign(s, start, end);
    let j = spec_digit_run_end(s, i, end);
    lemma_digit_run_end_bounds(s, i, end);
    let has_point = j < end && s[j] == '.';
    let fs = if has_point { j + 1 } else { j };
    if has_point {
        lemma_digit_run_end_bounds(s, fs, end);
    }
    assert(i <= j <= fs <= m < end);
    assert(spec_after_sign(s, start, m) == i);
    lemma_digit_run_end_cut(s, i, m, end);
    assert(spec_digit_run_end(s, i, m) == j);
    if has_point {
        lemma_digit_run_end_cut(s, fs, m, end);
        assert(spec_digit_run_end(s, fs, m) == m);
    }
    let mantissa = spec_decimal_shape(s, start, m)->Some_0;
    assert(spec_decimal_shape(s, start, m) is Some);
    assert(mantissa.exponent == 0);
}

/// Whether `s[start..end]` spells one of the non-finite words.
pub open spec fn spec_is_non_finite_word(s: Seq<char>, start: int, end: int) -> bool {
    let i = spec_after_sign(s, start, end);
    let word = s.subrange(i, end);
    spec_eq_ignore_case(word, seq!['i', 'n', 'f']) || spec_eq_ignore_case(
        word,
        seq!['i', 'n', 'f', 'i', 'n', 'i', 't', 'y'],
    ) || spec_eq_ignore_case(word, seq!['n', 'a', 'n'])
}

/// The digit of the literal at decimal position `p` (the digit worth
/// `10^p`). `lead` is the position of the first integer digit.
pub open spec fn spec_digit_at(s: Seq<char>, shape: DecimalShape, lead: int, p: int) -> int {
    let t = lead - p;
    let n_int = shape.int_end - shape.int_start;
    let n_frac = shape.frac_end - shape.frac_start;
    if 0 <= t < n_int {
        spec_digit(s[shape.int_start + t])
    } else if n_int <= t < n_int + n_frac {
        spec_digit(s[shape.frac_start + (t - n_int)])
    } else {
        0
    }
}

/// The `t`-th digit of the literal, counting integer digits then fraction
/// digits.
pub open spec fn spec_digit_of(s: Seq<char>, shape: DecimalShape, t: int) -> int {
    spec_digit_at(s, shape, spec_lead(shape), spec_lead(shape) - t)
}

pub open spec fn spec_lead(shape: DecimalShape) -> int {
    shape.int_end - shape.int_start - 1 + shape.exponent
}

/// The digits at positions `10^11` down to `10^p`, read as one integer.
pub open spec fn spec_horner(s: Seq<char>, shape: DecimalShape, p: int) -> int
    decreases 12 - p,
{
    if p >= 12 {
        0
    } else {
        spec_horner(s, shape, p + 1) * 10 + spec_digit_at(s, shape, spec_lead(shape), p)
    }
}

/// Whether a non-zero digit sits at some position in `[lo, hi]`.
pub open spec fn spec_nonzero_between(s: Seq<char>, shape: DecimalShape, lo: int, hi: int) -> bool {
    exists|p: int| lo <= p <= hi && spec_digit_at(s, shape, spec_lead(shape), p) != 0
}

/// Magnitude of the literal rounded to millionths, when it is below 10^12.
pub open spec fn spec_rounded_micros(s: Seq<char>, shape: DecimalShape) -> int {
    spec_horner(s, shape, -6) + if spec_digit_at(s, shape, spec_lead(shape), -7) >= 5 {
        1int
    } else {
        0int
    }
}

/// The wide reading of the literal `s[start..end]` (magnitudes up to
/// `MAX_WIDE_UNITS`), or `None` when it is not a numeric literal at all.
pub open spec fn spec_wide_number(s: Seq<char>, start: int, end: int) -> Option<Number> {
    if spec_is_non_finite_word(s, start, end) {
        Some(Number::NotFinite)
    } else {
        match spec_decimal_shape(s, start, end) {
            None => None,
            Some(shape) => {
                let lead = spec_lead(shape);
                let n_digits = (shape.int_end - shape.int_start) + (shape.frac_end - shape.frac_start);
                if exists|t: int| 0 <= t < n_digits && lead - t >= 309 && #[trigger] spec_digit_of(s, shape, t) != 0 {
                    Some(Number::NotFinite)
                } else if (exists|t: int| 0 <= t < n_digits && lead - t >= 12 && #[trigger] spec_digit_of(s, shape, t) != 0)
                    || spec_rounded_micros(s, shape) > 1_000_000_000_000_000_000 {
                    Some(Number::TooLarge { negative: shape.negative })
                } else {
                    let m = spec_rounded_micros(s, shape);
                    Some(Number::Value { micros: if shape.negative { -m } else { m } as i64 })
                }
            },
        }
    }
}

/// The ordinary reading of the literal `s[start..end]`: as the wide
/// reading, with magnitudes above `MAX_MAGNITUDE_UNITS` too large.
pub open spec fn spec_number(s: Seq<char>, start: int, end: int) -> Option<Number> {
    match spec_wide_number(s, start, end) {
        Some(Number::Value { micros }) => if micros > 1_000_000_000_000_000 || micros < -1_000_000_000_000_000 {
            Some(Number::TooLarge { negative: micros < 0 })
        } else {
            Some(Number::Value { micros })
        },
        other => other,
    }
}

fn digit_value(c: char) -> (d: i64)
    requires
        spec_is_ascii_digit(c),
    ensures
        d == spec_digit(c),
        0 <= d <= 9,
{
    ((c as u32) - ('0' as u32)) as i64
}

fn digit_run_end(chars: &[char], i: usize, end: usize) -> (j: usize)
    requires
        i <= end <= chars@.len(),
    ensures
        j as int == spec_digit_run_end(chars@, i as int, end as int),
        i <= j <= end,
        forall|k: int| i <= k < j ==> spec_is_ascii_digit(chars@[k]),
{
    let mut j = i;
    while j < end && is_ascii_digit(chars[j])
        invariant
            i <= j <= end <= chars@.len(),
            spec_digit_run_end(chars@, i as int, end as int) == spec_digit_run_end(
                chars@,
                j as int,
                end as int,
            ),
            forall|k: int| i <= k < j ==> spec_is_ascii_digit(chars@[k]),
        decreases end - j,
    {
        j = j + 1;
    }
    j
}

fn exponent_value(chars: &[char], i: usize, j: usize) -> (v: i64)
    requires
        i <= j <= chars@.len(),
        forall|k: int| i <= k < j ==> spec_is_ascii_digit(chars@[k]),
    ensures
        v as int == spec_exponent_value(chars@, i as int, j as int),
        0 <= v <= EXPONENT_LIMIT,
{
    let mut v: i64 = 0;
    let mut k = i;
    while k < j
        invariant
            i <= k <= j <= chars@.len(),
            forall|m: int| i <= m < j ==> spec_is_ascii_digit(chars@[m]),
            v as int == spec_exponent_value(chars@, i as int, k as int),
            0 <= v <= EXPONENT_LIMIT,
        decreases j - k,
    {
        let next = v * 10 + digit_value(chars[k]);
        v = if next > EXPONENT_LIMIT { EXPONENT_LIMIT } else { next };
        k = k + 1;
    }
    v
}

/// Reads the numeric literal `chars[start..end]` (ordinary reading).
pub fn parse_number(chars: &[char], start: usize, end: usize) -> (r: Option<Number>)
    requires
        start <= end <= chars@.len(),
    ensures
        r == spec_number(chars@, start as int, end as int),
{
    match parse_wide_number(chars, start, end) {
        Some(Number::Value { micros }) => if micros > 1_000_000_000_000_000 || micros < -1_000_000_000_000_000 {
            Some(Number::TooLarge { negative: micros < 0 })
        } else {
            Some(Number::Value { micros })
        },
        other => other,
    }
}

/// Reads the numeric literal `chars[start..end]` (wide reading).
pub fn parse_wide_number(chars: &[char], start: usize, end: usize) -> (r: Option<Number>)
    requires
        start <= end <= chars@.len(),
    ensures
        r == spec_wide_number(chars@, start as int, end as int),
{
    let s = Ghost(chars@);
    let i = if start < end && (chars[start] == '+' || chars[start] == '-') { start + 1 } else { start };
    if span_eq_ignore_case(chars, i, end, &['i', 'n', 'f']) || span_eq_ignore_case(
        chars,
        i,
        end,
        &['i', 'n', 'f', 'i', 'n', 'i', 't', 'y'],
    ) || span_eq_ignore_case(chars, i, end, &['n', 'a', 'n']) {
        assert(['i', 'n', 'f']@ =~= seq!['i', 'n', 'f']);
        assert(['i', 'n', 'f', 'i', 'n', 'i', 't', 'y']@ =~= seq!['i', 'n', 'f', 'i', 'n', 'i', 't', 'y']);
        assert(['n', 'a', 'n']@ =~= seq!['n', 'a', 'n']);
        return Some(Number::NotFinite);
    }
    assert(['i', 'n', 'f']@ =~= seq!['i', 'n', 'f']);
    assert(['i', 'n', 'f', 'i', 'n', 'i', 't', 'y']@ =~= seq!['i', 'n', 'f', 'i', 'n', 'i', 't', 'y']);
    assert(['n', 'a', 'n']@ =~= seq!['n', 'a', 'n']);
    let shape_r = decimal_shape(chars, start, end);
    let (negative, i, j, fs, fe, exponent) = match shape_r {
        None => return None,
        Some(v) => v,
    };
    let ghost shape = spec_decimal_shape(chars@, start as int, end as int)->0;
    let lead: i128 = ((j - i) as i128) - 1 + (exponent as i128);
    assert(lead == spec_lead(shape));
    let (infinite, large) = scan_magnitude(chars, i, j, fs, fe, lead, Ghost(shape));
    if infinite {
        return Some(Number::NotFinite);
    }
    let acc = horner_micros(chars, i, j, fs, fe, lead, Ghost(shape));
    let round_digit = digit_at(chars, i, j, fs, fe, lead, -7, Ghost(shape));
    let m: i64 = acc + if round_digit >= 5 { 1 } else { 0 };
    if large || m > 1_000_000_000_000_000_000 {
        return Some(Number::TooLarge { negative });
    }
    Some(Number::Value { micros: if negative { -m } else { m } })
}

/// What the exact value of the decimal literal `s[start..end]` is made
/// of: its sign, its digits down to millionths read as one integer (the
/// magnitude truncated to millionths, when below 10^12), whether a non-zero
/// digit sits at 10^12 or above, and whether one sits below a millionth;
/// `None` when it is no decimal literal.
pub open spec fn spec_exact_parts(s: Seq<char>, start: int, end: int) -> Option<(bool, int, bool, bool)> {
    match spec_decimal_shape(s, start, end) {
        None => None,
        Some(shape) => {
            let lead = spec_lead(shape);
            let n_digits = (shape.int_end - shape.int_start) + (shape.frac_end - shape.frac_start);
            Some((
                shape.negative,
                spec_horner(s, shape, -6),
                exists|t: int| 0 <= t < n_digits && lead - t >= 12 && #[trigger] spec_digit_of(s, shape, t) != 0,
                exists|t: int| 0 <= t < n_digits && lead - t <= -7 && #[trigger] spec_digit_of(s, shape, t) != 0,
            ))
        },
    }
}

/// Whether the exact value of the decimal literal `s[start..end]` lies in
/// `[0, 1]`.
pub open spec fn spec_exact_in_unit(s: Seq<char>, start: int, end: int) -> bool {
    match spec_exact_parts(s, start, end) {
        Some((negative, t, large, fine)) => !large && (!negative || (t == 0 && !fine))
            && (t < 1_000_000 || (t == 1_000_000 && !fine)),
        None => false,
    }
}

/// Whether the exact value of the decimal literal `s[start..end]` is
/// greater than zero.
pub open spec fn spec_exact_positive(s: Seq<char>, start: int, end: int) -> bool {
    match spec_exact_parts(s, start, end) {
        Some((negative, t, large, fine)) => !negative && (t > 0 || large || fine),
        None => false,
    }
}

/// Whether a non-zero digit of the literal sits below a millionth.
fn scan_fine(
    chars: &[char],
    i: usize,
    j: usize,
    fs: usize,
    fe: usize,
    lead: i128,
    shape: Ghost<DecimalShape>,
) -> (r: bool)
    requires
        i <= j <= fs <= fe <= chars@.len(),
        forall|k: int| i <= k < j ==> spec_is_ascii_digit(chars@[k]),
        forall|k: int| fs <= k < fe ==> spec_is_ascii_digit(chars@[k]),
        shape@.int_start == i,
        shape@.int_end == j,
        shape@.frac_start == fs,
        shape@.frac_end == fe,
        lead == spec_lead(shape@),
        -0x1_0000_0000_0000_0000_0000 <= lead <= 0x1_0000_0000_0000_0000_0000,
    ensures
        r == exists|u: int| 0 <= u < (j - i) + (fe - fs) && lead - u <= -7 && #[trigger] spec_digit_of(chars@, shape@, u) != 0,
{
    let n_int = j - i;
    let n_digits = n_int + (fe - fs);
    let mut t: usize = 0;
    let mut fine = false;
    while t < n_digits
        invariant
            i <= j <= fs <= fe <= chars@.len(),
            n_int == j - i,
            n_digits == n_int + (fe - fs),
            forall|k: int| i <= k < j ==> spec_is_ascii_digit(chars@[k]),
            forall|k: int| fs <= k < fe ==> spec_is_ascii_digit(chars@[k]),
            shape@.int_start == i,
            shape@.int_end == j,
            shape@.frac_start == fs,
            shape@.frac_end == fe,
            lead == spec_lead(shape@),
            -0x1_0000_0000_0000_0000_0000 <= lead <= 0x1_0000_0000_0000_0000_0000,
            0 <= t <= n_digits,
            fine == exists|u: int| 0 <= u < t && lead - u <= -7 && #[trigger] spec_digit_of(chars@, shape@, u) != 0,
        decreases n_digits - t,
    {
        let c = if t < n_int { chars[i + t] } else { chars[fs + (t - n_int)] };
        let d = digit_value(c);
        let p: i128 = lead - (t as i128);
        assert(spec_digit_of(chars@, shape@, t as int) == d);
        if d != 0 && p <= -7 {
            fine = true;
        }
        t = t + 1;
    }
    fine
}

/// Reads what the exact value of the decimal literal `chars[start..end]`
/// is made of (see `spec_exact_parts`).
fn exact_parts(chars: &[char], start: usize, end: usize) -> (r: Option<(bool, i64, bool, bool)>)
    requires
        start <= end <= chars@.len(),
    ensures
        match r {
            Some((n, t, l, f)) => spec_exact_parts(chars@, start as int, end as int) == Some((n, t as int, l, f)),
            None => spec_exact_parts(chars@, start as int, end as int) is None,
        },
{
    let (negative, i, j, fs, fe, exponent) = match decimal_shape(chars, start, end) {
        None => return None,
        Some(v) => v,
    };
    let ghost shape = spec_decimal_shape(chars@, start as int, end as int)->0;
    let lead: i128 = ((j - i) as i128) - 1 + (exponent as i128);
    assert(lead == spec_lead(shape));
    let (_, large) = scan_magnitude(chars, i, j, fs, fe, lead, Ghost(shape));
    let fine = scan_fine(chars, i, j, fs, fe, lead, Ghost(shape));
    let t = horner_micros(chars, i, j, fs, fe, lead, Ghost(shape));
    Some((negative, t, large, fine))
}

/// Whether the exact value of the literal `chars[start..end]` lies in
/// `[0, 1]`.
pub fn exact_in_unit(chars: &[char], start: usize, end: usize) -> (b: bool)
    requires
        start <= end <= chars@.len(),
    ensures
        b == spec_exact_in_unit(chars@, start as int, end as int),
{
    match exact_parts(chars, start, end) {
        Some((negative, t, large, fine)) => !large && (!negative || (t == 0 && !fine)) && (t < 1_000_000 || (t == 1_000_000 && !fine)),
        None => false,
    }
}

/// Whether the exact value of the literal `chars[start..end]` is greater
/// than zero.
pub fn exact_positive(chars: &[char], start: usize, end: usize) -> (b: bool)
    requires
        start <= end <= chars@.len(),
    ensures
        b == spec_exact_positive(chars@, start as int, end as int),
{
    match exact_parts(chars, start, end) {
        Some((negative, t, large, fine)) => !negative && (t > 0 || large || fine),
        None => false,
    }
}

/// The shape of the finite decimal literal `chars[start..end]`, as the
/// tuple `(negative, int_start, int_end, frac_start, frac_end, exponent)`.
fn decimal_shape(chars: &[char], start: usize, end: usize) -> (r: Option<(bool, usize, usize, usize, usize, i64)>)
    requires
        start <= end <= chars@.len(),
    ensures
        match r {
            None => spec_decimal_shape(chars@, start as int, end as int) is None,
            Some(v) => {
                &&& spec_decimal_shape(chars@, start as int, end as int) == Some(DecimalShape {
                    negative: v.0,
                    int_start: v.1 as int,
                    int_end: v.2 as int,
                    frac_start: v.3 as int,
                    frac_end: v.4 as int,
                    exponent: v.5 as int,
                })
                &&& start <= v.1 <= v.2 <= v.3 <= v.4 <= end
                &&& forall|k: int| v.1 <= k < v.2 ==> spec_is_ascii_digit(chars@[k])
                &&& forall|k: int| v.3 <= k < v.4 ==> spec_is_ascii_digit(chars@[k])
                &&& -EXPONENT_LIMIT <= v.5 <= EXPONENT_LIMIT
            },
        },
{
    let negative = start < end && chars[start] == '-';
    let i = if start < end && (chars[start] == '+' || chars[start] == '-') { start + 1 } else { start };
    let j = digit_run_end(chars, i, end);
    let has_point = j < end && chars[j] == '.';
    let fs = if has_point { j + 1 } else { j };
    let fe = if has_point { digit_run_end(chars, fs, end) } else { j };
    if (j - i) + (fe - fs) == 0 {
        return None;
    }
    let mut exponent: i64 = 0;
    if fe < end {
        if chars[fe] == 'e' || chars[fe] == 'E' {
            let es = if fe + 1 < end && (chars[fe + 1] == '+' || chars[fe + 1] == '-') { fe + 2 } else { fe + 1 };
            let ee = digit_run_end(chars, es, end);
            if ee == end && ee > es {
                let mag = exponent_value(chars, es, ee);
                exponent = if chars[fe + 1] == '-' { -mag } else { mag };
            } else {
                return None;
            }
        } else {
            return None;
        }
    }
    Some((negative, i, j, fs, fe, exponent))
}

/// Whether a non-zero digit of the literal sits at a position of at least
/// `10^309` (first flag) or at least `10^12` (second flag).
fn scan_magnitude(
    chars: &[char],
    i: usize,
    j: usize,
    fs: usize,
    fe: usize,
    lead: i128,
    shape: Ghost<DecimalShape>,
) -> (r: (bool, bool))
    requires
        i <= j <= fs <= fe <= chars@.len(),
        forall|k: int| i <= k < j ==> spec_is_ascii_digit(chars@[k]),
        forall|k: int| fs <= k < fe ==> spec_is_ascii_digit(chars@[k]),
        shape@.int_start == i,
        shape@.int_end == j,
        shape@.frac_start == fs,
        shape@.frac_end == fe,
        lead == spec_lead(shape@),
        -0x1_0000_0000_0000_0000_0000 <= lead <= 0x1_0000_0000_0000_0000_0000,
    ensures
        r.0 == exists|u: int| 0 <= u < (j - i) + (fe - fs) && lead - u >= 309 && #[trigger] spec_digit_of(chars@, shape@, u) != 0,
        r.1 == exists|u: int| 0 <= u < (j - i) + (fe - fs) && lead - u >= 12 && #[trigger] spec_digit_of(chars@, shape@, u) != 0,
{
    let n_int = j - i;
    let n_digits = n_int + (fe - fs);
    let mut t: usize = 0;
    let mut infinite = false;
    let mut large = false;
    while t < n_digits
        invariant
            i <= j <= fs <= fe <= chars@.len(),
            n_int == j - i,
            n_digits == n_int + (fe - fs),
            forall|k: int| i <= k < j ==> spec_is_ascii_digit(chars@[k]),
            forall|k: int| fs <= k < fe ==> spec_is_ascii_digit(chars@[k]),
            shape@.int_start == i,
            shape@.int_end == j,
            shape@.frac_start == fs,
            shape@.frac_end == fe,
            lead == spec_lead(shape@),
            -0x1_0000_0000_0000_0000_0000 <= lead <= 0x1_0000_0000_0000_0000_0000,
            0 <= t <= n_digits,
            infinite == exists|u: int| 0 <= u < t && lead - u >= 309 && #[trigger] spec_digit_of(chars@, shape@, u) != 0,
            large == exists|u: int| 0 <= u < t && lead - u >= 12 && #[trigger] spec_digit_of(chars@, shape@, u) != 0,
        decreases n_digits - t,
    {
        let c = if t < n_int { chars[i + t] } else { chars[fs + (t - n_int)] };
        let d = digit_value(c);
        let p: i128 = lead - (t as i128);
        assert(spec_digit_of(chars@, shape@, t as int) == d);
        if d != 0 && p >= 309 {
            infinite = true;
        }
        if d != 0 && p >= 12 {
            large = true;
        }
        t = t + 1;
    }
    (infinite, large)
}

proof fn lemma_pow10_bound(n: int)
    requires
        0 <= n <= 18,
    ensures
        1 <= pow10_bound(n) <= pow10_bound(18),
        pow10_bound(18) == 1_000_000_000_000_000_000,
    decreases 18 - n,
{
    reveal_with_fuel(pow10_bound, 19);
    if n < 18 {
        lemma_pow10_bound(n + 1);
    }
}

/// The digits at positions `10^11` down to `10^-6`, read as one integer.
fn horner_micros(
    chars: &[char],
    i: usize,
    j: usize,
    fs: usize,
    fe: usize,
    lead: i128,
    shape: Ghost<DecimalShape>,
) -> (acc: i64)
    requires
        i <= j <= fs <= fe <= chars@.len(),
        forall|k: int| i <= k < j ==> spec_is_ascii_digit(chars@[k]),
        forall|k: int| fs <= k < fe ==> spec_is_ascii_digit(chars@[k]),
        shape@.int_start == i,
        shape@.int_end == j,
        shape@.frac_start == fs,
        shape@.frac_end == fe,
        lead == spec_lead(shape@),
        -0x1_0000_0000_0000_0000_0000 <= lead <= 0x1_0000_0000_0000_0000_0000,
    ensures
        acc as int == spec_horner(chars@, shape@, -6),
        0 <= acc < 1_000_000_000_000_000_000,
{
    let mut acc: i64 = 0;
    let mut p: i64 = 11;
    proof {
        lemma_pow10_bound(0);
        reveal_with_fuel(pow10_bound, 1);
    }
    while p >= -6
        invariant
            i <= j <= fs <= fe <= chars@.len(),
            forall|k: int| i <= k < j ==> spec_is_ascii_digit(chars@[k]),
            forall|k: int| fs <= k < fe ==> spec_is_ascii_digit(chars@[k]),
            shape@.int_start == i,
            shape@.int_end == j,
            shape@.frac_start == fs,
            shape@.frac_end == fe,
            lead == spec_lead(shape@),
            -0x1_0000_0000_0000_0000_0000 <= lead <= 0x1_0000_0000_0000_0000_0000,
            -7 <= p <= 11,
            acc as int == spec_horner(chars@, shape@, p + 1),
            0 <= acc < pow10_bound(11 - p),
        decreases p + 7,
    {
        let d = digit_at(chars, i, j, fs, fe, lead, p as i128, shape);
        proof {
            lemma_pow10_bound(11 - p);
            lemma_pow10_bound(12 - p);
            assert(pow10_bound(12 - p) == 10 * pow10_bound(11 - p));
        }
        acc = acc * 10 + d;
        p = p - 1;
    }
    proof {
        lemma_pow10_bound(18);
    }
    acc
}

/// `10^n` as an upper bound for `n` digits (for `n` in `0..=18`).
pub open spec fn pow10_bound(n: int) -> int
    decreases n,
{
    if n <= 0 {
        1
    } else {
        10 * pow10_bound(n - 1)
    }
}

fn digit_at(
    chars: &[char],
    i: usize,
    j: usize,
    fs: usize,
    fe: usize,
    lead: i128,
    p: i128,
    shape: Ghost<DecimalShape>,
) -> (d: i64)
    requires
        i <= j <= fs <= fe <= chars@.len(),
        forall|k: int| i <= k < j ==> spec_is_ascii_digit(chars@[k]),
        forall|k: int| fs <= k < fe ==> spec_is_ascii_digit(chars@[k]),
        shape@.int_start == i,
        shape@.int_end == j,
        shape@.frac_start == fs,
        shape@.frac_end == fe,
        -8 <= p <= 11,
        -0x1_0000_0000_0000_0000_0000 <= lead <= 0x1_0000_0000_0000_0000_0000,
    ensures
        d == spec_digit_at(chars@, shape@, lead as int, p as int),
        0 <= d <= 9,
{
    let t: i128 = lead - p;
    let n_int = (j - i) as i128;
    let n_frac = (fe - fs) as i128;
    if 0 <= t && t < n_int {
        digit_value(chars[i + (t as usize)])
    } else if n_int <= t && t < n_int + n_frac {
        digit_value(chars[fs + ((t - n_int) as usize)])
    } else {
        0
    }
}

} // verus!
