//! Small scanners shared by the directive parsers: `(...)` stripping,
//! `key=value` splitting, `"..."` unquoting, name normalisation and
//! unsigned integers.

use vstd::prelude::*;
use crate::chars::{find_char, is_ascii_digit, spec_is_ascii_digit, spec_trim, trim_span};
use crate::number::spec_digit;

verus! {

/// Index of the first `c` in `s[i..end]`.
pub open spec fn spec_first_index(s: Seq<char>, i: int, end: int, c: char) -> Option<int>
    decreases end - i,
{
    if i >= end {
        None
    } else if s[i] == c {
        Some(i)
    } else {
        spec_first_index(s, i + 1, end, c)
    }
}

pub proof fn lemma_first_index(s: Seq<char>, i: int, end: int, c: char)
    requires
        i <= end,
    ensures
        match spec_first_index(s, i, end, c) {
            Some(k) => i <= k < end && s[k] == c && forall|j: int| i <= j < k ==> s[j] != c,
            None => forall|j: int| i <= j < end ==> s[j] != c,
        },
    decreases end - i,
{
    if i < end && s[i] != c {
        lemma_first_index(s, i + 1, end, c);
    }
}

/// `find_char`, stated through `spec_first_index`.
pub fn first_index(chars: &[char], start: usize, end: usize, c: char) -> (r: Option<usize>)
    requires
        start <= end <= chars@.len(),
    ensures
        match r {
            Some(k) => spec_first_index(chars@, start as int, end as int, c) == Some(k as int),
            None => spec_first_index(chars@, start as int, end as int, c) is None,
        },
        r matches Some(k) ==> start <= k < end && chars@[k as int] == c,
{
    proof {
        lemma_first_index(chars@, start as int, end as int, c);
    }
    let r = find_char(chars, start, end, c);
    proof {
        match spec_first_index(chars@, start as int, end as int, c) {
            Some(k) => {
                if let Some(i) = r {
                    if i < k {
                        assert(chars@[i as int] != c);
                    } else if k < i {
                        assert(chars@[k] != c);
                    }
                } else {
                    assert(chars@[k] != c);
                }
            },
            None => {
                if let Some(i) = r {
                    assert(chars@[i as int] != c);
                }
            },
        }
    }
    r
}

/// The inside of `(...)` after trimming, if the span is parenthesised.
pub open spec fn spec_strip_parens(s: Seq<char>, start: int, end: int) -> Option<(int, int)> {
    let (a, b) = spec_trim(s, start, end);
    if b - a >= 2 && s[a] == '(' && s[b - 1] == ')' {
        Some((a + 1, b - 1))
    } else {
        None
    }
}

/// Strips the outer parentheses of the trimmed span.
pub fn strip_parens(chars: &[char], start: usize, end: usize) -> (r: Option<(usize, usize)>)
    requires
        start <= end <= chars@.len(),
    ensures
        match r {
            Some((a, b)) => spec_strip_parens(chars@, start as int, end as int) == Some((a as int, b as int)),
            None => spec_strip_parens(chars@, start as int, end as int) is None,
        },
        r matches Some((a, b)) ==> start < a <= b < end,
{
    let (a, b) = trim_span(chars, start, end);
    if b - a >= 2 && chars[a] == '(' && chars[b - 1] == ')' {
        Some((a + 1, b - 1))
    } else {
        None
    }
}

/// The span without one pair of surrounding double quotes; `None` when
/// only one side is quoted (or the span is a lone `"`).
pub open spec fn spec_unquote(s: Seq<char>, start: int, end: int) -> Option<(int, int)> {
    let leads = end > start && s[start] == '"';
    let trails = end > start && s[end - 1] == '"';
    if leads && trails && end - start >= 2 {
        Some((start + 1, end - 1))
    } else if !leads && !trails {
        Some((start, end))
    } else {
        None
    }
}

pub fn unquote(chars: &[char], start: usize, end: usize) -> (r: Option<(usize, usize)>)
    requires
        start <= end <= chars@.len(),
    ensures
        match r {
            Some((a, b)) => spec_unquote(chars@, start as int, end as int) == Some((a as int, b as int)),
            None => spec_unquote(chars@, start as int, end as int) is None,
        },
        r matches Some((a, b)) ==> start <= a <= b <= end,
{
    let leads = end > start && chars[start] == '"';
    let trails = end > start && chars[end - 1] == '"';
    if leads && trails && end - start >= 2 {
        Some((start + 1, end - 1))
    } else if !leads && !trails {
        Some((start, end))
    } else {
        None
    }
}

/// `key=value` with whitespace allowed around `=`: the trimmed key and
/// the trimmed, unquoted value; `None` without `=`, with an empty side, or
/// with unbalanced quotes around the value.
pub open spec fn spec_key_value(s: Seq<char>, start: int, end: int) -> Option<(int, int, int, int)> {
    match spec_first_index(s, start, end, '=') {
        None => None,
        Some(e) => {
            let (ka, kb) = spec_trim(s, start, e);
            let (va, vb) = spec_trim(s, e + 1, end);
            if ka == kb || va == vb {
                None
            } else {
                match spec_unquote(s, va, vb) {
                    None => None,
                    Some((x, y)) => Some((ka, kb, x, y)),
                }
            }
        },
    }
}

pub fn split_key_value(chars: &[char], start: usize, end: usize) -> (r: Option<(usize, usize, usize, usize)>)
    requires
        start <= end <= chars@.len(),
    ensures
        match r {
            Some((ka, kb, va, vb)) => spec_key_value(chars@, start as int, end as int) == Some(
                (ka as int, kb as int, va as int, vb as int),
            ),
            None => spec_key_value(chars@, start as int, end as int) is None,
        },
        r matches Some((ka, kb, va, vb)) ==> start <= ka < kb <= end && start <= va <= vb <= end,
{
    let e = match first_index(chars, start, end, '=') {
        None => return None,
        Some(e) => e,
    };
    let (ka, kb) = trim_span(chars, start, e);
    let (va, vb) = trim_span(chars, e + 1, end);
    if ka == kb || va == vb {
        return None;
    }
    match unquote(chars, va, vb) {
        None => None,
        Some((x, y)) => Some((ka, kb, x, y)),
    }
}

/// Directive and attribute names compare case-insensitively, with `-`
/// and `_` equivalent: ASCII upper case folds to lower case and `-`
/// becomes `_`.
pub open spec fn spec_norm_char(c: char) -> char {
    if 'A' <= c && c <= 'Z' {
        ((c as u32) + 32) as char
    } else if c == '-' {
        '_'
    } else {
        c
    }
}

pub open spec fn spec_normalise(s: Seq<char>) -> Seq<char> {
    s.map_values(|c: char| spec_norm_char(c))
}

/// Normalising a name twice is the same as normalising it once.
pub proof fn lemma_normalise_idempotent(s: Seq<char>)
    ensures
        spec_normalise(spec_normalise(s)) == spec_normalise(s),
{
    assert forall|i: int| 0 <= i < s.len() implies spec_norm_char(spec_norm_char(s[i])) == spec_norm_char(s[i]) by {
        let c = s[i];
        if 'A' <= c && c <= 'Z' {
            assert(((c as u32) + 32) as char == spec_norm_char(c));
        }
    }
    assert(spec_normalise(spec_normalise(s)) =~= spec_normalise(s));
}

pub fn normalise(chars: &[char], start: usize, end: usize) -> (r: Vec<char>)
    requires
        start <= end <= chars@.len(),
    ensures
        r@ == spec_normalise(chars@.subrange(start as int, end as int)),
{
    let mut out: Vec<char> = Vec::new();
    let mut i = start;
    while i < end
        invariant
            start <= i <= end <= chars@.len(),
            out@ == spec_normalise(chars@.subrange(start as int, i as int)),
        decreases end - i,
    {
        let c = chars[i];
        let n = if 'A' <= c && c <= 'Z' {
            crate::chars::to_ascii_lower(c)
        } else if c == '-' {
            '_'
        } else {
            c
        };
        out.push(n);
        assert(out@ =~= spec_normalise(chars@.subrange(start as int, i + 1)));
        i = i + 1;
    }
    out
}

/// Value of the decimal digits `s[i..j]`.
pub open spec fn spec_digits_value(s: Seq<char>, i: int, j: int) -> int
    decreases j - i,
{
    if j <= i {
        0
    } else {
        spec_digits_value(s, i, j - 1) * 10 + spec_digit(s[j - 1])
    }
}

proof fn lemma_digits_value_mono(s: Seq<char>, i: int, j: int, k: int)
    requires
        i <= j <= k,
        forall|m: int| i <= m < k ==> spec_is_ascii_digit(#[trigger] s[m]),
    ensures
        0 <= spec_digits_value(s, i, j) <= spec_digits_value(s, i, k),
    decreases k - j,
{
    if j < k {
        lemma_digits_value_mono(s, i, j, k - 1);
        lemma_digits_value_nonneg(s, i, k - 1);
    } else {
        lemma_digits_value_nonneg(s, i, j);
    }
}

proof fn lemma_digits_value_nonneg(s: Seq<char>, i: int, j: int)
    requires
        forall|m: int| i <= m < j ==> spec_is_ascii_digit(#[trigger] s[m]),
    ensures
        spec_digits_value(s, i, j) >= 0,
    decreases j - i,
{
    if j > i {
        lemma_digits_value_nonneg(s, i, j - 1);
    }
}

/// An unsigned 32-bit decimal literal as `str::parse::<u32>` reads it: an
/// optional `+`, then one or more ASCII digits, at most `u32::MAX`.
pub open spec fn spec_u32_literal(s: Seq<char>, start: int, end: int) -> Option<u32> {
    let d = if start < end && s[start] == '+' { start + 1 } else { start };
    if d >= end {
        None
    } else if exists|m: int| d <= m < end && !spec_is_ascii_digit(#[trigger] s[m]) {
        None
    } else if spec_digits_value(s, d, end) > u32::MAX {
        None
    } else {
        Some(spec_digits_value(s, d, end) as u32)
    }
}

pub fn parse_u32(chars: &[char], start: usize, end: usize) -> (r: Option<u32>)
    requires
        start <= end <= chars@.len(),
    ensures
        r == spec_u32_literal(chars@, start as int, end as int),
{
    let d = if start < end && chars[start] == '+' { start + 1 } else { start };
    if d >= end {
        return None;
    }
    let mut acc: u64 = 0;
    let mut k = d;
    while k < end
        invariant
            d <= k <= end <= chars@.len(),
            d == (if start < end && chars@[start as int] == '+' { start + 1 } else { start as int }),
            d < end,
            forall|m: int| d <= m < k ==> spec_is_ascii_digit(#[trigger] chars@[m]),
            acc as int == spec_digits_value(chars@, d as int, k as int),
            acc <= u32::MAX,
        decreases end - k,
    {
        let c = chars[k];
        if !is_ascii_digit(c) {
            assert(!spec_is_ascii_digit(chars@[k as int]));
            return None;
        }
        let digit = (c as u32 - '0' as u32) as u64;
        acc = acc * 10 + digit;
        assert(acc as int == spec_digits_value(chars@, d as int, k + 1));
        if acc > 0xffff_ffffu64 {
            proof {
                assert forall|m: int| d <= m < k + 1 implies spec_is_ascii_digit(#[trigger] chars@[m]) by {}
                if forall|m: int| d <= m < end ==> spec_is_ascii_digit(#[trigger] chars@[m]) {
                    lemma_digits_value_mono(chars@, d as int, k + 1, end as int);
                } else {
                    let m = choose|m: int| d <= m < end && !spec_is_ascii_digit(#[trigger] chars@[m]);
                    assert(!spec_is_ascii_digit(chars@[m]));
                }
            }
            return None;
        }
        k = k + 1;
    }
    Some(acc as u32)
}

} // verus!
